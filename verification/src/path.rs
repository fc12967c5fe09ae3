//! Absolute paths over the file-tree model.
//!
//! A path is the sequence of its components; the filesystem root is the
//! empty sequence.  Paths are compared and resolved componentwise, so a
//! path here is always in canonical form (no `.` or `..` entries).

use vstd::prelude::*;

verus! {

/// An absolute path, as the sequence of its components.
///
/// The view of a path is the sequence of the views of its components.
#[derive(Debug, PartialEq, Eq)]
pub struct FsPath {
    pub parts: Vec<String>,
}

impl View for FsPath {
    type V = Seq<Seq<char>>;

    open spec fn view(&self) -> Seq<Seq<char>> {
        self.parts.deep_view()
    }
}

impl FsPath {
    /// The filesystem root.
    pub fn root() -> (r: FsPath)
        ensures
            r@ =~= Seq::<Seq<char>>::empty(),
    {
        FsPath { parts: Vec::new() }
    }

    /// An independent copy of this path.
    pub fn dup(&self) -> (r: FsPath)
        ensures
            r@ == self@,
    {
        let mut parts: Vec<String> = Vec::new();
        let mut i: usize = 0;
        while i < self.parts.len()
            invariant
                i <= self.parts.len(),
                parts@.len() == i,
                forall|j: int| 0 <= j < i ==> parts@[j] == self.parts@[j],
            decreases self.parts.len() - i,
        {
            parts.push(self.parts[i].clone());
            i = i + 1;
        }
        proof {
            assert(parts@ =~= self.parts@);
        }
        FsPath { parts }
    }

    /// This path extended by one further component.
    pub fn child(&self, name: &String) -> (r: FsPath)
        ensures
            r@ == self@.push(name@),
    {
        let mut r = self.dup();
        r.parts.push(name.clone());
        proof {
            assert(r@ =~= self@.push(name@));
        }
        r
    }

    /// Number of components.
    pub fn len(&self) -> (n: usize)
        ensures
            n == self@.len(),
    {
        self.parts.len()
    }

    /// The path without its last component.
    pub fn parent(&self) -> (r: FsPath)
        requires
            self@.len() > 0,
        ensures
            r@ == self@.drop_last(),
    {
        let mut r = self.dup();
        r.parts.pop();
        proof {
            assert(r@ =~= self@.drop_last());
        }
        r
    }

    /// The path with its last component replaced by `name`.
    pub fn with_last(&self, name: String) -> (r: FsPath)
        requires
            self@.len() > 0,
        ensures
            r@ == self@.update(self@.len() - 1, name@),
    {
        let mut r = self.dup();
        r.parts.pop();
        r.parts.push(name);
        proof {
            assert(r@ =~= self@.update(self@.len() - 1, name@));
        }
        r
    }

    /// This path extended by all of `other`'s components.
    pub fn join(&self, other: &FsPath) -> (r: FsPath)
        ensures
            r@ == self@ + other@,
    {
        let mut r = self.dup();
        let mut i: usize = 0;
        while i < other.parts.len()
            invariant
                i <= other.parts.len(),
                r@.len() == self@.len() + i,
                forall|j: int| 0 <= j < self@.len() ==> r@[j] == self@[j],
                forall|j: int| 0 <= j < i ==> r@[self@.len() + j] == other@[j],
            decreases other.parts.len() - i,
        {
            r.parts.push(other.parts[i].clone());
            i = i + 1;
        }
        proof {
            assert(r@ =~= self@ + other@);
        }
        r
    }

    /// Componentwise equality.
    pub fn same_as(&self, other: &FsPath) -> (r: bool)
        ensures
            r == (self@ == other@),
    {
        if self.parts.len() != other.parts.len() {
            proof {
                assert(self@.len() != other@.len());
            }
            return false;
        }
        let mut i: usize = 0;
        while i < self.parts.len()
            invariant
                i <= self.parts.len(),
                self@.len() == other@.len(),
                forall|j: int| 0 <= j < i ==> self@[j] == other@[j],
            decreases self.parts.len() - i,
        {
            if self.parts[i] != other.parts[i] {
                proof {
                    assert(self@[i as int] != other@[i as int]);
                }
                return false;
            }
            i = i + 1;
        }
        proof {
            assert(self@ =~= other@);
        }
        true
    }
}

/// The name under which an entry at this path appears in its parent
/// directory: the last component, or `"filesystem root"` for the root,
/// which has no parent.
pub fn get_name(path: &FsPath) -> (r: String)
    ensures
        path@.len() > 0 ==> r@ == path@.last(),
        path@.len() == 0 ==> r@ == "filesystem root"@,
{
    if path.parts.len() > 0 {
        path.parts[path.parts.len() - 1].clone()
    } else {
        "filesystem root".to_owned()
    }
}

} // verus!
