//! The primitive filesystem mutations the engine decides on.
//!
//! The engine never touches a real filesystem: it applies each mutation to
//! the model and records it here, in the order it must be performed, for
//! the caller to carry out.

use vstd::prelude::*;

use crate::path::FsPath;

verus! {

/// One primitive filesystem mutation.
#[derive(Debug, PartialEq, Eq)]
pub enum Action {
    CreateSymlink { original: FsPath, destination: FsPath },
    RemoveSymlink { destination: FsPath },
    CreateDir { destination: FsPath },
    RemoveDir { destination: FsPath },
    RemoveFile { destination: FsPath },
    MoveFile { from: FsPath, to: FsPath },
}

/// The mathematical value of an [`Action`].
#[verifier::ext_equal]
pub ghost enum ActionV {
    CreateSymlink { original: Seq<Seq<char>>, destination: Seq<Seq<char>> },
    RemoveSymlink { destination: Seq<Seq<char>> },
    CreateDir { destination: Seq<Seq<char>> },
    RemoveDir { destination: Seq<Seq<char>> },
    RemoveFile { destination: Seq<Seq<char>> },
    MoveFile { from: Seq<Seq<char>>, to: Seq<Seq<char>> },
}

impl View for Action {
    type V = ActionV;

    open spec fn view(&self) -> ActionV {
        match *self {
            Action::CreateSymlink { original, destination } => ActionV::CreateSymlink {
                original: original@,
                destination: destination@,
            },
            Action::RemoveSymlink { destination } => ActionV::RemoveSymlink {
                destination: destination@,
            },
            Action::CreateDir { destination } => ActionV::CreateDir { destination: destination@ },
            Action::RemoveDir { destination } => ActionV::RemoveDir { destination: destination@ },
            Action::RemoveFile { destination } => ActionV::RemoveFile {
                destination: destination@,
            },
            Action::MoveFile { from, to } => ActionV::MoveFile { from: from@, to: to@ },
        }
    }
}

/// The values of a recorded action list.
pub open spec fn acts_view(s: Seq<Action>) -> Seq<ActionV>
    decreases s.len(),
{
    if s.len() == 0 {
        Seq::empty()
    } else {
        seq![s[0]@] + acts_view(s.drop_first())
    }
}

/// `acts_view` described pointwise.
pub proof fn lemma_acts_view(s: Seq<Action>)
    ensures
        acts_view(s).len() == s.len(),
        forall|i: int| 0 <= i < s.len() ==> #[trigger] acts_view(s)[i] == s[i]@,
    decreases s.len(),
{
    if s.len() > 0 {
        lemma_acts_view(s.drop_first());
    }
}

/// Recording one more action appends its value.
pub proof fn lemma_acts_view_push(s: Seq<Action>, a: Action)
    ensures
        acts_view(s.push(a)) == acts_view(s).push(a@),
{
    lemma_acts_view(s);
    lemma_acts_view(s.push(a));
    assert(acts_view(s.push(a)) =~= acts_view(s).push(a@));
}

} // verus!
