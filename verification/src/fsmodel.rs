//! The file-tree model the merge engine works on.
//!
//! A [`Node`] is a file, a symlink, or a directory with a list of named
//! entries.  Files carry their owner ("is it root-owned") and an abstract
//! content stamp, which is all the engine ever reads of them.  The model is
//! inspected with `lstat`-like semantics: [`lookup_v`] resolves a path
//! componentwise and does not follow symlinks; [`canon_v`] follows them.

use vstd::prelude::*;

use crate::path::FsPath;

verus! {

/// One directory entry: a name and the node stored under it.
#[derive(Debug, PartialEq, Eq)]
pub struct Entry {
    pub name: String,
    pub node: Node,
}

/// A node of the file-tree model.
#[derive(Debug, PartialEq, Eq)]
pub enum Node {
    /// A regular file.  `content` is an abstract stamp standing for the
    /// file's bytes: two files are byte-for-byte equal in the model if and
    /// only if their stamps are equal.
    File { root_owned: bool, content: u64 },
    /// A symbolic link to an absolute path.
    Symlink { target: FsPath },
    /// A directory.
    Dir { root_owned: bool, entries: Vec<Entry> },
}

/// The mathematical value of a [`Node`]: names become character sequences,
/// entry lists become sequences of pairs.
#[verifier::ext_equal]
pub ghost enum NodeV {
    File { root_owned: bool, content: u64 },
    Symlink { target: Seq<Seq<char>> },
    Dir { root_owned: bool, entries: Seq<(Seq<char>, NodeV)> },
}

pub open spec fn entries_view(s: Seq<Entry>) -> Seq<(Seq<char>, NodeV)>
    decreases s,
{
    if s.len() == 0 {
        Seq::empty()
    } else {
        seq![(s[0].name@, node_view(s[0].node))] + entries_view(s.drop_first())
    }
}

pub open spec fn node_view(n: Node) -> NodeV
    decreases n,
{
    match n {
        Node::File { root_owned, content } => NodeV::File { root_owned, content },
        Node::Symlink { target } => NodeV::Symlink { target: target@ },
        Node::Dir { root_owned, entries } => NodeV::Dir {
            root_owned,
            entries: entries_view(entries@),
        },
    }
}

impl View for Node {
    type V = NodeV;

    open spec fn view(&self) -> NodeV {
        node_view(*self)
    }
}

/// The whole modelled filesystem: the node at the root path.
#[derive(Debug, PartialEq, Eq)]
pub struct Fs {
    pub root: Node,
}

impl View for Fs {
    type V = NodeV;

    open spec fn view(&self) -> NodeV {
        node_view(self.root)
    }
}

/// `entries_view` described pointwise.
pub proof fn lemma_entries_view(s: Seq<Entry>)
    ensures
        entries_view(s).len() == s.len(),
        forall|i: int|
            0 <= i < s.len() ==> #[trigger] entries_view(s)[i] == (
                s[i].name@,
                node_view(s[i].node),
            ),
    decreases s,
{
    if s.len() > 0 {
        lemma_entries_view(s.drop_first());
    }
}

/// The node under `name` in an entry list: the first entry of that name.
pub open spec fn find_v(s: Seq<(Seq<char>, NodeV)>, name: Seq<char>) -> Option<NodeV>
    decreases s.len(),
{
    if s.len() == 0 {
        None
    } else if s[0].0 == name {
        Some(s[0].1)
    } else {
        find_v(s.drop_first(), name)
    }
}

/// `find_v` returns the entry at the first index whose name matches.
pub proof fn lemma_find_v_at(s: Seq<(Seq<char>, NodeV)>, name: Seq<char>, j: int)
    requires
        0 <= j < s.len(),
        s[j].0 == name,
        forall|k: int| 0 <= k < j ==> (#[trigger] s[k]).0 != name,
    ensures
        find_v(s, name) == Some(s[j].1),
    decreases j,
{
    if j > 0 {
        lemma_find_v_at(s.drop_first(), name, j - 1);
    }
}

/// `find_v` fails when no entry has the name.
pub proof fn lemma_find_v_absent(s: Seq<(Seq<char>, NodeV)>, name: Seq<char>)
    requires
        forall|k: int| 0 <= k < s.len() ==> (#[trigger] s[k]).0 != name,
    ensures
        find_v(s, name) is None,
    decreases s.len(),
{
    if s.len() > 0 {
        lemma_find_v_absent(s.drop_first(), name);
    }
}

/// The node at `path` below `n`, not following symlinks.
pub open spec fn lookup_v(n: NodeV, path: Seq<Seq<char>>) -> Option<NodeV>
    decreases path.len(),
{
    if path.len() == 0 {
        Some(n)
    } else {
        match n {
            NodeV::Dir { entries, .. } => match find_v(entries, path[0]) {
                Some(c) => lookup_v(c, path.drop_first()),
                None => None,
            },
            _ => None,
        }
    }
}

/// The entry list with the first entry named `name` replaced by `new`, or
/// with `(name, new)` appended when no entry has the name.
pub open spec fn set_entry_v(
    s: Seq<(Seq<char>, NodeV)>,
    name: Seq<char>,
    new: NodeV,
) -> Seq<(Seq<char>, NodeV)>
    decreases s.len(),
{
    if s.len() == 0 {
        seq![(name, new)]
    } else if s[0].0 == name {
        seq![(name, new)] + s.drop_first()
    } else {
        seq![s[0]] + set_entry_v(s.drop_first(), name, new)
    }
}

/// The entry list without its first entry named `name`.
pub open spec fn remove_entry_v(
    s: Seq<(Seq<char>, NodeV)>,
    name: Seq<char>,
) -> Seq<(Seq<char>, NodeV)>
    decreases s.len(),
{
    if s.len() == 0 {
        s
    } else if s[0].0 == name {
        s.drop_first()
    } else {
        seq![s[0]] + remove_entry_v(s.drop_first(), name)
    }
}

/// The tree with the node at `path` replaced by `new`.  A missing final
/// component is created; a missing or non-directory intermediate component
/// leaves the tree unchanged, as it would on a real filesystem.
pub open spec fn set_v(n: NodeV, path: Seq<Seq<char>>, new: NodeV) -> NodeV
    decreases path.len(),
{
    if path.len() == 0 {
        new
    } else {
        match n {
            NodeV::Dir { root_owned, entries } => if path.len() == 1 {
                NodeV::Dir { root_owned, entries: set_entry_v(entries, path[0], new) }
            } else {
                match find_v(entries, path[0]) {
                    Some(c) => NodeV::Dir {
                        root_owned,
                        entries: set_entry_v(entries, path[0], set_v(c, path.drop_first(), new)),
                    },
                    None => n,
                }
            },
            _ => n,
        }
    }
}

/// The tree with the node at `path` removed.  Removing the root or a path
/// that does not lead through directories leaves the tree unchanged.
pub open spec fn remove_v(n: NodeV, path: Seq<Seq<char>>) -> NodeV
    decreases path.len(),
{
    if path.len() == 0 {
        n
    } else {
        match n {
            NodeV::Dir { root_owned, entries } => if path.len() == 1 {
                NodeV::Dir { root_owned, entries: remove_entry_v(entries, path[0]) }
            } else {
                match find_v(entries, path[0]) {
                    Some(c) => NodeV::Dir {
                        root_owned,
                        entries: set_entry_v(entries, path[0], remove_v(c, path.drop_first())),
                    },
                    None => n,
                }
            },
            _ => n,
        }
    }
}

/// The canonical path `path` resolves to: symlinks are followed, up to
/// `fuel` of them.  `None` when the path leads nowhere (a broken link) or
/// the links are nested too deep.
pub open spec fn canon_v(fs: NodeV, path: Seq<Seq<char>>, fuel: nat) -> Option<Seq<Seq<char>>>
    decreases fuel,
{
    match lookup_v(fs, path) {
        Some(node) => match node {
            NodeV::Symlink { target } => if fuel == 0 {
                None
            } else {
                canon_v(fs, target, (fuel - 1) as nat)
            },
            _ => Some(path),
        },
        None => None,
    }
}

/// The root-ownership predicate of the security gate: the node and, below
/// a directory, every descendant is owned by the privileged account.  A
/// symlink is never accepted: its ownership cannot be pinned down.
pub open spec fn all_root_v(n: NodeV) -> bool
    decreases n, 1int,
{
    match n {
        NodeV::File { root_owned, .. } => root_owned,
        NodeV::Symlink { .. } => false,
        NodeV::Dir { root_owned, entries } => root_owned && all_root_list_v(entries),
    }
}

pub open spec fn all_root_list_v(s: Seq<(Seq<char>, NodeV)>) -> bool
    decreases s, 0int,
{
    if s.len() == 0 {
        true
    } else {
        all_root_v(s[0].1) && all_root_list_v(s.drop_first())
    }
}

/// `all_root_list_v` described pointwise.
pub proof fn lemma_all_root_list_v(s: Seq<(Seq<char>, NodeV)>)
    ensures
        all_root_list_v(s) <==> (forall|i: int|
            0 <= i < s.len() ==> all_root_v((#[trigger] s[i]).1)),
    decreases s.len(),
{
    if s.len() > 0 {
        lemma_all_root_list_v(s.drop_first());
        assert(forall|i: int|
            1 <= i < s.len() ==> #[trigger] s[i] == s.drop_first()[i - 1]);
        if all_root_v(s[0].1) && (forall|i: int|
            1 <= i < s.len() ==> all_root_v((#[trigger] s[i]).1)) {
            assert(forall|i: int|
                0 <= i < s.drop_first().len() ==> all_root_v((#[trigger] s.drop_first()[i]).1));
        }
    }
}

/// Replacing at the first matching index.
pub proof fn lemma_set_entry_at(s: Seq<(Seq<char>, NodeV)>, name: Seq<char>, new: NodeV, j: int)
    requires
        0 <= j < s.len(),
        s[j].0 == name,
        forall|k: int| 0 <= k < j ==> (#[trigger] s[k]).0 != name,
    ensures
        set_entry_v(s, name, new) =~= s.update(j, (name, new)),
    decreases j,
{
    if j > 0 {
        lemma_set_entry_at(s.drop_first(), name, new, j - 1);
    }
}

/// Appending when no entry matches.
pub proof fn lemma_set_entry_absent(s: Seq<(Seq<char>, NodeV)>, name: Seq<char>, new: NodeV)
    requires
        forall|k: int| 0 <= k < s.len() ==> (#[trigger] s[k]).0 != name,
    ensures
        set_entry_v(s, name, new) =~= s.push((name, new)),
    decreases s.len(),
{
    if s.len() > 0 {
        lemma_set_entry_absent(s.drop_first(), name, new);
    }
}

/// Removing at the first matching index.
pub proof fn lemma_remove_entry_at(s: Seq<(Seq<char>, NodeV)>, name: Seq<char>, j: int)
    requires
        0 <= j < s.len(),
        s[j].0 == name,
        forall|k: int| 0 <= k < j ==> (#[trigger] s[k]).0 != name,
    ensures
        remove_entry_v(s, name) =~= s.remove(j),
    decreases j,
{
    if j > 0 {
        lemma_remove_entry_at(s.drop_first(), name, j - 1);
    }
}

/// Removing when no entry matches.
pub proof fn lemma_remove_entry_absent(s: Seq<(Seq<char>, NodeV)>, name: Seq<char>)
    requires
        forall|k: int| 0 <= k < s.len() ==> (#[trigger] s[k]).0 != name,
    ensures
        remove_entry_v(s, name) =~= s,
    decreases s.len(),
{
    if s.len() > 0 {
        lemma_remove_entry_absent(s.drop_first(), name);
    }
}

/// One path is the other's prefix: the node at `q` lies in the subtree
/// under `p`.
pub open spec fn is_prefix(p: Seq<Seq<char>>, q: Seq<Seq<char>>) -> bool {
    p.len() <= q.len() && p == q.take(p.len() as int)
}

/// After a replacement, the name maps to the new node.
pub proof fn lemma_find_set_entry_same(s: Seq<(Seq<char>, NodeV)>, name: Seq<char>, x: NodeV)
    ensures
        find_v(set_entry_v(s, name, x), name) == Some(x),
    decreases s.len(),
{
    if s.len() > 0 && s[0].0 != name {
        lemma_find_set_entry_same(s.drop_first(), name, x);
        assert((seq![s[0]] + set_entry_v(s.drop_first(), name, x)).drop_first()
            =~= set_entry_v(s.drop_first(), name, x));
    }
}

/// A replacement under one name leaves every other name's entry alone.
pub proof fn lemma_find_set_entry_other(
    s: Seq<(Seq<char>, NodeV)>,
    name: Seq<char>,
    x: NodeV,
    other: Seq<char>,
)
    requires
        other != name,
    ensures
        find_v(set_entry_v(s, name, x), other) == find_v(s, other),
    decreases s.len(),
{
    if s.len() == 0 {
        let t = seq![(name, x)];
        assert(t[0] == (name, x));
        assert(t.drop_first() =~= Seq::<(Seq<char>, NodeV)>::empty());
        assert(find_v(t, other) == find_v(Seq::<(Seq<char>, NodeV)>::empty(), other));
        assert(find_v(Seq::<(Seq<char>, NodeV)>::empty(), other) is None);
    } else if s[0].0 == name {
        let t = seq![(name, x)] + s.drop_first();
        assert(t[0] == (name, x));
        assert(t.drop_first() =~= s.drop_first());
        assert(find_v(t, other) == find_v(s.drop_first(), other));
        assert(find_v(s, other) == find_v(s.drop_first(), other));
    } else {
        lemma_find_set_entry_other(s.drop_first(), name, x, other);
        let t = seq![s[0]] + set_entry_v(s.drop_first(), name, x);
        assert(t[0] == s[0]);
        assert(t.drop_first() =~= set_entry_v(s.drop_first(), name, x));
        if s[0].0 == other {
            assert(find_v(t, other) == Some(s[0].1));
            assert(find_v(s, other) == Some(s[0].1));
        } else {
            assert(find_v(t, other) == find_v(set_entry_v(s.drop_first(), name, x), other));
            assert(find_v(s, other) == find_v(s.drop_first(), other));
        }
    }
}

/// A removal under one name leaves every other name's entry alone.
pub proof fn lemma_find_remove_entry_other(
    s: Seq<(Seq<char>, NodeV)>,
    name: Seq<char>,
    other: Seq<char>,
)
    requires
        other != name,
    ensures
        find_v(remove_entry_v(s, name), other) == find_v(s, other),
    decreases s.len(),
{
    if s.len() > 0 && s[0].0 != name {
        lemma_find_remove_entry_other(s.drop_first(), name, other);
        assert((seq![s[0]] + remove_entry_v(s.drop_first(), name)).drop_first()
            =~= remove_entry_v(s.drop_first(), name));
    }
}

/// Replacing an entry by the node it already holds changes nothing.
pub proof fn lemma_set_entry_identity(s: Seq<(Seq<char>, NodeV)>, name: Seq<char>, c: NodeV)
    requires
        find_v(s, name) == Some(c),
    ensures
        set_entry_v(s, name, c) == s,
    decreases s.len(),
{
    if s.len() > 0 {
        if s[0].0 == name {
            assert(set_entry_v(s, name, c) =~= s);
        } else {
            lemma_set_entry_identity(s.drop_first(), name, c);
            assert(set_entry_v(s, name, c) =~= s);
        }
    }
}

/// Removing a freshly appended entry restores the list, when nothing
/// else bears the name.
pub proof fn lemma_remove_entry_push(s: Seq<(Seq<char>, NodeV)>, name: Seq<char>, x: NodeV)
    requires
        find_v(s, name) is None,
    ensures
        remove_entry_v(s.push((name, x)), name) == s,
    decreases s.len(),
{
    if s.len() == 0 {
        assert(s.push((name, x))[0].0 == name);
        assert(remove_entry_v(s.push((name, x)), name) =~= s);
    } else {
        assert(s.push((name, x))[0] == s[0]);
        lemma_remove_entry_push(s.drop_first(), name, x);
        assert(s.push((name, x)).drop_first() =~= s.drop_first().push((name, x)));
        assert(remove_entry_v(s.push((name, x)), name) =~= s);
    }
}

/// Two replacements under one name collapse into the second.
pub proof fn lemma_set_entry_twice(
    s: Seq<(Seq<char>, NodeV)>,
    name: Seq<char>,
    a: NodeV,
    b: NodeV,
)
    ensures
        set_entry_v(set_entry_v(s, name, a), name, b) == set_entry_v(s, name, b),
    decreases s.len(),
{
    if s.len() == 0 {
        assert(set_entry_v(s, name, a)[0].0 == name);
        assert(set_entry_v(set_entry_v(s, name, a), name, b) =~= set_entry_v(s, name, b));
    } else if s[0].0 == name {
        assert(set_entry_v(set_entry_v(s, name, a), name, b) =~= set_entry_v(s, name, b));
    } else {
        lemma_set_entry_twice(s.drop_first(), name, a, b);
        assert(set_entry_v(s, name, a)[0] == s[0]);
        assert(set_entry_v(s, name, a).drop_first() =~= set_entry_v(s.drop_first(), name, a));
        assert(set_entry_v(set_entry_v(s, name, a), name, b) =~= set_entry_v(s, name, b));
    }
}

/// When `find_v` fails, no entry has the name.
pub proof fn lemma_find_v_none_all(s: Seq<(Seq<char>, NodeV)>, name: Seq<char>)
    requires
        find_v(s, name) is None,
    ensures
        forall|k: int| 0 <= k < s.len() ==> (#[trigger] s[k]).0 != name,
    decreases s.len(),
{
    if s.len() > 0 {
        lemma_find_v_none_all(s.drop_first(), name);
        assert(forall|k: int| 1 <= k < s.len() ==> #[trigger] s[k] == s.drop_first()[k - 1]);
    }
}

/// An appended entry is invisible under any other name.
pub proof fn lemma_find_push_other(
    s: Seq<(Seq<char>, NodeV)>,
    a: Seq<char>,
    x: NodeV,
    b: Seq<char>,
)
    requires
        b != a,
    ensures
        find_v(s.push((a, x)), b) == find_v(s, b),
    decreases s.len(),
{
    if s.len() == 0 {
        assert(s.push((a, x))[0] == (a, x));
        assert(s.push((a, x)).drop_first() =~= Seq::<(Seq<char>, NodeV)>::empty());
        assert(find_v(s.push((a, x)).drop_first(), b) is None);
    } else {
        assert(s.push((a, x))[0] == s[0]);
        assert(s.push((a, x)).drop_first() =~= s.drop_first().push((a, x)));
        lemma_find_push_other(s.drop_first(), a, x, b);
    }
}

/// Writing back what a path already holds changes nothing.
pub proof fn lemma_set_identity(n: NodeV, path: Seq<Seq<char>>, v: NodeV)
    requires
        lookup_v(n, path) == Some(v),
    ensures
        set_v(n, path, v) == n,
    decreases path.len(),
{
    reveal_with_fuel(lookup_v, 3);
    if path.len() == 0 {
    } else {
        match n {
            NodeV::Dir { root_owned, entries } => {
                match find_v(entries, path[0]) {
                    Some(c) => {
                        if path.len() == 1 {
                            assert(path.drop_first() =~= Seq::<Seq<char>>::empty());
                            lemma_set_entry_identity(entries, path[0], c);
                            assert(set_v(n, path, v) =~= n);
                        } else {
                            lemma_set_identity(c, path.drop_first(), v);
                            lemma_set_entry_identity(entries, path[0], c);
                            assert(set_v(n, path, v) =~= n);
                        }
                    },
                    None => {
                        assert(false);
                    },
                }
            },
            _ => {
                assert(false);
            },
        }
    }
}

/// Two writes at one path collapse into the second.
pub proof fn lemma_set_overwrite(n: NodeV, path: Seq<Seq<char>>, a: NodeV, b: NodeV)
    ensures
        set_v(set_v(n, path, a), path, b) == set_v(n, path, b),
    decreases path.len(),
{
    if path.len() == 0 {
    } else {
        match n {
            NodeV::Dir { root_owned, entries } => {
                if path.len() == 1 {
                    lemma_set_entry_twice(entries, path[0], a, b);
                    assert(set_v(set_v(n, path, a), path, b) =~= set_v(n, path, b));
                } else {
                    match find_v(entries, path[0]) {
                        Some(c) => {
                            lemma_set_overwrite(c, path.drop_first(), a, b);
                            let ca = set_v(c, path.drop_first(), a);
                            lemma_find_set_entry_same(entries, path[0], ca);
                            lemma_set_entry_twice(
                                entries,
                                path[0],
                                ca,
                                set_v(ca, path.drop_first(), b),
                            );
                            assert(set_v(set_v(n, path, a), path, b) =~= set_v(n, path, b));
                        },
                        None => {},
                    }
                }
            },
            _ => {},
        }
    }
}

/// Finding in a concatenation: the front of the list wins.
pub proof fn lemma_find_concat(
    a: Seq<(Seq<char>, NodeV)>,
    b: Seq<(Seq<char>, NodeV)>,
    name: Seq<char>,
)
    ensures
        find_v(a + b, name) == (if find_v(a, name) is Some {
            find_v(a, name)
        } else {
            find_v(b, name)
        }),
    decreases a.len(),
{
    if a.len() == 0 {
        assert(a + b =~= b);
    } else {
        assert((a + b)[0] == a[0]);
        assert((a + b).drop_first() =~= a.drop_first() + b);
        lemma_find_concat(a.drop_first(), b, name);
    }
}

/// Removing a name that the front of a concatenation does not hold
/// removes it from the back.
pub proof fn lemma_remove_entry_concat(
    a: Seq<(Seq<char>, NodeV)>,
    b: Seq<(Seq<char>, NodeV)>,
    name: Seq<char>,
)
    requires
        find_v(a, name) is None,
    ensures
        remove_entry_v(a + b, name) == a + remove_entry_v(b, name),
    decreases a.len(),
{
    if a.len() == 0 {
        assert(a + b =~= b);
        assert(a + remove_entry_v(b, name) =~= remove_entry_v(b, name));
    } else {
        assert((a + b)[0] == a[0]);
        assert((a + b).drop_first() =~= a.drop_first() + b);
        lemma_remove_entry_concat(a.drop_first(), b, name);
        assert(remove_entry_v(a + b, name) =~= a + remove_entry_v(b, name));
    }
}

/// Removing one level below a directory is writing the directory with
/// the entry removed.
pub proof fn lemma_remove_push(n: NodeV, p: Seq<Seq<char>>, name: Seq<char>)
    requires
        lookup_v(n, p) matches Some(NodeV::Dir { .. }),
    ensures
        ({
            match lookup_v(n, p) {
                Some(NodeV::Dir { root_owned, entries }) => remove_v(n, p.push(name)) == set_v(
                    n,
                    p,
                    NodeV::Dir { root_owned, entries: remove_entry_v(entries, name) },
                ),
                _ => true,
            }
        }),
    decreases p.len(),
{
    reveal_with_fuel(lookup_v, 3);
    reveal_with_fuel(set_v, 3);
    reveal_with_fuel(remove_v, 3);
    if p.len() == 0 {
        assert(p.push(name)[0] == name);
        assert(p.push(name).drop_first() =~= Seq::<Seq<char>>::empty());
        assert(p.push(name).len() == 1);
    } else {
        assert(p.push(name)[0] == p[0]);
        assert(p.push(name).drop_first() =~= p.drop_first().push(name));
        match n {
            NodeV::Dir { root_owned, entries } => {
                match find_v(entries, p[0]) {
                    Some(c) => {
                        lemma_remove_push(c, p.drop_first(), name);
                    },
                    None => {
                        assert(false);
                    },
                }
            },
            _ => {
                assert(false);
            },
        }
    }
}

/// Incomparability survives pushing one more component on either side.
pub proof fn lemma_prefix_push(a: Seq<Seq<char>>, b: Seq<Seq<char>>, x: Seq<char>)
    requires
        !is_prefix(a, b),
        !is_prefix(b, a),
    ensures
        !is_prefix(a, b.push(x)),
        !is_prefix(b.push(x), a),
{
    if is_prefix(b.push(x), a) {
        assert(b == a.take(b.len() as int)) by {
            assert forall|k: int| 0 <= k < b.len() implies a.take(b.len() as int)[k] == b[k] by {
                assert(a[k] == b.push(x).take(b.push(x).len() as int)[k]);
            }
            assert(a.take(b.len() as int) =~= b);
        }
        assert(false);
    }
    if is_prefix(a, b.push(x)) {
        if a.len() <= b.len() {
            assert(a == b.take(a.len() as int)) by {
                assert forall|k: int| 0 <= k < a.len() implies b.take(a.len() as int)[k]
                    == a[k] by {
                    assert(a[k] == b.push(x).take(a.len() as int)[k]);
                }
                assert(b.take(a.len() as int) =~= a);
            }
            assert(false);
        } else {
            assert(a.len() == b.len() + 1);
            assert(a =~= b.push(x).take(a.len() as int));
            assert(a =~= b.push(x));
            assert(b == a.take(b.len() as int)) by {
                assert(a.take(b.len() as int) =~= b);
            }
            assert(false);
        }
    }
}

/// A shared head and a prefix relation between the tails make a prefix.
pub proof fn lemma_prefix_step(p: Seq<Seq<char>>, q: Seq<Seq<char>>)
    requires
        p.len() > 0,
        q.len() > 0,
        p[0] == q[0],
        is_prefix(p.drop_first(), q.drop_first()),
    ensures
        is_prefix(p, q),
{
    let p2 = p.drop_first();
    let q2 = q.drop_first();
    assert forall|k: int| 0 <= k < p.len() implies q.take(p.len() as int)[k] == p[k] by {
        if k > 0 {
            assert(p[k] == p2[k - 1]);
            assert(q[k] == q2[k - 1]);
            assert(p2[k - 1] == q2.take(p2.len() as int)[k - 1]);
        }
    }
    assert(q.take(p.len() as int) =~= p);
}

/// Writing at `path` puts `new` there, when the parent resolves to a
/// directory.
pub proof fn lemma_set_then_lookup(n: NodeV, path: Seq<Seq<char>>, x: NodeV)
    requires
        path.len() > 0,
        lookup_v(n, path.drop_last()) matches Some(NodeV::Dir { .. }),
    ensures
        lookup_v(set_v(n, path, x), path) == Some(x),
    decreases path.len(),
{
    if path.len() == 1 {
        assert(path.drop_last() =~= Seq::<Seq<char>>::empty());
        match n {
            NodeV::Dir { root_owned, entries } => {
                lemma_find_set_entry_same(entries, path[0], x);
                assert(path.drop_first() =~= Seq::<Seq<char>>::empty());
            },
            _ => {},
        }
    } else {
        assert(path.drop_last().len() > 0);
        assert(path.drop_last()[0] == path[0]);
        assert(path.drop_last().drop_first() =~= path.drop_first().drop_last());
        match n {
            NodeV::Dir { root_owned, entries } => {
                match find_v(entries, path[0]) {
                    Some(c) => {
                        lemma_set_then_lookup(c, path.drop_first(), x);
                        lemma_find_set_entry_same(entries, path[0], set_v(c, path.drop_first(), x));
                    },
                    None => {
                        assert(false);
                    },
                }
            },
            _ => {
                assert(false);
            },
        }
    }
}

/// Removing what was just written restores the tree, when nothing was
/// there before.
pub proof fn lemma_remove_set_roundtrip(n: NodeV, path: Seq<Seq<char>>, x: NodeV)
    requires
        path.len() > 0,
        lookup_v(n, path) is None,
        lookup_v(n, path.drop_last()) matches Some(NodeV::Dir { .. }),
    ensures
        remove_v(set_v(n, path, x), path) == n,
    decreases path.len(),
{
    reveal_with_fuel(lookup_v, 3);
    if path.len() == 1 {
        assert(path.drop_last() =~= Seq::<Seq<char>>::empty());
        match n {
            NodeV::Dir { root_owned, entries } => {
                assert(path.drop_first() =~= Seq::<Seq<char>>::empty());
                assert(find_v(entries, path[0]) is None);
                lemma_find_v_none_all(entries, path[0]);
                lemma_set_entry_absent(entries, path[0], x);
                lemma_remove_entry_push(entries, path[0], x);
                assert(remove_v(set_v(n, path, x), path) =~= n);
            },
            _ => {},
        }
    } else {
        assert(path.drop_last().len() > 0);
        assert(path.drop_last()[0] == path[0]);
        assert(path.drop_last().drop_first() =~= path.drop_first().drop_last());
        match n {
            NodeV::Dir { root_owned, entries } => {
                match find_v(entries, path[0]) {
                    Some(c) => {
                        assert(path.drop_first().len() > 0);
                        lemma_remove_set_roundtrip(c, path.drop_first(), x);
                        let c2 = set_v(c, path.drop_first(), x);
                        lemma_find_set_entry_same(entries, path[0], c2);
                        lemma_set_entry_twice(
                            entries,
                            path[0],
                            c2,
                            remove_v(c2, path.drop_first()),
                        );
                        lemma_set_entry_identity(entries, path[0], c);
                        assert(remove_v(set_v(n, path, x), path) =~= n);
                    },
                    None => {
                        assert(false);
                    },
                }
            },
            _ => {
                assert(false);
            },
        }
    }
}

/// Writing somewhere else changes nothing seen from here: the two paths
/// must be incomparable, so neither subtree contains the other.
pub proof fn lemma_lookup_set_frame(n: NodeV, p: Seq<Seq<char>>, x: NodeV, q: Seq<Seq<char>>)
    requires
        !is_prefix(p, q),
        !is_prefix(q, p),
    ensures
        lookup_v(set_v(n, p, x), q) == lookup_v(n, q),
    decreases p.len(),
{
    if p.len() == 0 {
        assert(q.take(0) =~= p);
        assert(false);
    }
    if q.len() == 0 {
        assert(p.take(0) =~= q);
        assert(false);
    }
    match n {
        NodeV::Dir { root_owned, entries } => {
            if p[0] == q[0] {
                if p.len() == 1 {
                    assert(q.take(1) =~= p);
                    assert(false);
                }
                if q.len() == 1 {
                    assert(p.take(1) =~= q);
                    assert(false);
                }
                let p2 = p.drop_first();
                let q2 = q.drop_first();
                assert(!is_prefix(p2, q2)) by {
                    if is_prefix(p2, q2) {
                        lemma_prefix_step(p, q);
                    }
                }
                assert(!is_prefix(q2, p2)) by {
                    if is_prefix(q2, p2) {
                        lemma_prefix_step(q, p);
                    }
                }
                match find_v(entries, p[0]) {
                    Some(c) => {
                        lemma_lookup_set_frame(c, p2, x, q2);
                        lemma_find_set_entry_same(entries, p[0], set_v(c, p2, x));
                    },
                    None => {},
                }
            } else {
                if p.len() == 1 {
                    lemma_find_set_entry_other(entries, p[0], x, q[0]);
                } else {
                    match find_v(entries, p[0]) {
                        Some(c) => {
                            lemma_find_set_entry_other(
                                entries,
                                p[0],
                                set_v(c, p.drop_first(), x),
                                q[0],
                            );
                        },
                        None => {},
                    }
                }
            }
        },
        _ => {},
    }
}

/// A path one component longer looks the last component up in the
/// directory the shorter path reaches.
pub proof fn lemma_lookup_snoc(n: NodeV, p: Seq<Seq<char>>, name: Seq<char>)
    ensures
        lookup_v(n, p.push(name)) == (match lookup_v(n, p) {
            Some(NodeV::Dir { entries, .. }) => find_v(entries, name),
            _ => None::<NodeV>,
        }),
    decreases p.len(),
{
    reveal_with_fuel(lookup_v, 3);
    if p.len() == 0 {
        assert(p.push(name)[0] == name);
        assert(p.push(name).drop_first() =~= Seq::<Seq<char>>::empty());
    } else {
        assert(p.push(name)[0] == p[0]);
        assert(p.push(name).drop_first() =~= p.drop_first().push(name));
        match n {
            NodeV::Dir { root_owned, entries } => {
                match find_v(entries, p[0]) {
                    Some(c) => {
                        lemma_lookup_snoc(c, p.drop_first(), name);
                    },
                    None => {},
                }
            },
            _ => {},
        }
    }
}

/// Whatever resolves, resolves through a directory above it.
pub proof fn lemma_lookup_parent(n: NodeV, p: Seq<Seq<char>>)
    requires
        p.len() > 0,
        lookup_v(n, p) is Some,
    ensures
        lookup_v(n, p.drop_last()) matches Some(NodeV::Dir { .. }),
{
    lemma_lookup_snoc(n, p.drop_last(), p.last());
    assert(p.drop_last().push(p.last()) =~= p);
}

/// Writing one level below a directory is writing the directory with the
/// entry replaced.
pub proof fn lemma_set_push(n: NodeV, p: Seq<Seq<char>>, name: Seq<char>, x: NodeV)
    requires
        lookup_v(n, p) matches Some(NodeV::Dir { .. }),
    ensures
        ({
            match lookup_v(n, p) {
                Some(NodeV::Dir { root_owned, entries }) => set_v(n, p.push(name), x) == set_v(
                    n,
                    p,
                    NodeV::Dir { root_owned, entries: set_entry_v(entries, name, x) },
                ),
                _ => true,
            }
        }),
    decreases p.len(),
{
    reveal_with_fuel(lookup_v, 3);
    reveal_with_fuel(set_v, 3);
    if p.len() == 0 {
        assert(p.push(name)[0] == name);
        assert(p.push(name).drop_first() =~= Seq::<Seq<char>>::empty());
        assert(p.push(name).len() == 1);
    } else {
        assert(p.push(name)[0] == p[0]);
        assert(p.push(name).drop_first() =~= p.drop_first().push(name));
        match n {
            NodeV::Dir { root_owned, entries } => {
                match find_v(entries, p[0]) {
                    Some(c) => {
                        lemma_set_push(c, p.drop_first(), name, x);
                    },
                    None => {
                        assert(false);
                    },
                }
            },
            _ => {
                assert(false);
            },
        }
    }
}

/// The index of the first entry named `name`, if any.
pub fn find_idx(entries: &Vec<Entry>, name: &String) -> (r: Option<usize>)
    ensures
        match r {
            Some(j) => j < entries@.len() && (#[trigger] entries@[j as int]).name@ == name@
                && forall|k: int| 0 <= k < j ==> (#[trigger] entries@[k]).name@ != name@,
            None => forall|k: int|
                0 <= k < entries@.len() ==> (#[trigger] entries@[k]).name@ != name@,
        },
{
    let mut j: usize = 0;
    while j < entries.len()
        invariant
            j <= entries@.len(),
            forall|k: int| 0 <= k < j ==> (#[trigger] entries@[k]).name@ != name@,
        decreases entries@.len() - j,
    {
        if entries[j].name == *name {
            return Some(j);
        }
        j = j + 1;
    }
    None
}

/// The node at `path` (from component `i` on) below `n`; `lstat` semantics.
pub fn lookup_in<'a>(n: &'a Node, path: &FsPath, i: usize) -> (r: Option<&'a Node>)
    requires
        i <= path@.len(),
    ensures
        match r {
            Some(m) => lookup_v(n@, path@.skip(i as int)) == Some(m@),
            None => lookup_v(n@, path@.skip(i as int)) is None,
        },
    decreases path@.len() - i,
{
    if i == path.parts.len() {
        proof {
            assert(path@.skip(i as int) =~= Seq::<Seq<char>>::empty());
        }
        return Some(n);
    }
    proof {
        assert(path@.skip(i as int).drop_first() =~= path@.skip(i as int + 1));
        assert(path@.skip(i as int)[0] == path@[i as int]);
    }
    match n {
        Node::Dir { entries, .. } => {
            proof {
                lemma_entries_view(entries@);
            }
            match find_idx(entries, &path.parts[i]) {
                Some(j) => {
                    proof {
                        lemma_find_v_at(entries_view(entries@), path@[i as int], j as int);
                    }
                    lookup_in(&entries[j].node, path, i + 1)
                },
                None => {
                    proof {
                        lemma_find_v_absent(entries_view(entries@), path@[i as int]);
                    }
                    None
                },
            }
        },
        _ => None,
    }
}

/// An independent copy of a node.
#[verifier::loop_isolation(false)]
pub fn clone_node(n: &Node) -> (r: Node)
    ensures
        r@ == n@,
    decreases n,
{
    match n {
        Node::File { root_owned, content } => Node::File {
            root_owned: *root_owned,
            content: *content,
        },
        Node::Symlink { target } => Node::Symlink { target: target.dup() },
        Node::Dir { root_owned, entries } => {
            let mut out: Vec<Entry> = Vec::new();
            let mut j: usize = 0;
            while j < entries.len()
                invariant
                    j <= entries@.len(),
                    out@.len() == j,
                    forall|k: int|
                        0 <= k < j ==> (#[trigger] out@[k]).name@ == entries@[k].name@
                            && out@[k].node@ == entries@[k].node@,
                decreases entries@.len() - j,
            {
                let ent = Entry { name: entries[j].name.clone(), node: clone_node(&entries[j].node) };
                out.push(ent);
                j = j + 1;
            }
            proof {
                lemma_entries_view(entries@);
                lemma_entries_view(out@);
                assert(entries_view(out@) =~= entries_view(entries@));
            }
            Node::Dir { root_owned: *root_owned, entries: out }
        },
    }
}

/// The tree `n` with the node at `path` (from component `i` on) replaced by
/// `new`, as [`set_v`] describes.
pub fn set_at(n: &Node, path: &FsPath, i: usize, new: Node) -> (r: Node)
    requires
        i <= path@.len(),
    ensures
        r@ == set_v(n@, path@.skip(i as int), new@),
    decreases path@.len() - i,
{
    if i == path.parts.len() {
        proof {
            assert(path@.skip(i as int) =~= Seq::<Seq<char>>::empty());
        }
        return new;
    }
    proof {
        assert(path@.skip(i as int).drop_first() =~= path@.skip(i as int + 1));
        assert(path@.skip(i as int)[0] == path@[i as int]);
    }
    match n {
        Node::Dir { root_owned, entries } => {
            proof {
                lemma_entries_view(entries@);
            }
            let ghost old_ev = entries_view(entries@);
            let ghost name_v = path@[i as int];
            match find_idx(entries, &path.parts[i]) {
                Some(j) => {
                    proof {
                        lemma_find_v_at(old_ev, name_v, j as int);
                    }
                    let child = if i + 1 == path.parts.len() {
                        new
                    } else {
                        set_at(&entries[j].node, path, i + 1, new)
                    };
                    let mut out = clone_entries(entries);
                    out.remove(j);
                    out.insert(j, Entry { name: path.parts[i].clone(), node: child });
                    proof {
                        lemma_entries_view(out@);
                        lemma_set_entry_at(old_ev, name_v, node_view(child), j as int);
                        assert(entries_view(out@) =~= old_ev.update(
                            j as int,
                            (name_v, node_view(child)),
                        ));
                    }
                    Node::Dir { root_owned: *root_owned, entries: out }
                },
                None => {
                    proof {
                        lemma_find_v_absent(old_ev, name_v);
                    }
                    if i + 1 == path.parts.len() {
                        let mut out = clone_entries(entries);
                        out.push(Entry { name: path.parts[i].clone(), node: new });
                        proof {
                            lemma_entries_view(out@);
                            lemma_set_entry_absent(old_ev, name_v, node_view(new));
                            assert(entries_view(out@) =~= old_ev.push((name_v, node_view(new))));
                        }
                        Node::Dir { root_owned: *root_owned, entries: out }
                    } else {
                        clone_node(n)
                    }
                },
            }
        },
        _ => clone_node(n),
    }
}

/// The tree `n` with the node at `path` (from component `i` on) removed, as
/// [`remove_v`] describes.
pub fn remove_at(n: &Node, path: &FsPath, i: usize) -> (r: Node)
    requires
        i <= path@.len(),
    ensures
        r@ == remove_v(n@, path@.skip(i as int)),
    decreases path@.len() - i,
{
    if i == path.parts.len() {
        proof {
            assert(path@.skip(i as int) =~= Seq::<Seq<char>>::empty());
        }
        return clone_node(n);
    }
    proof {
        assert(path@.skip(i as int).drop_first() =~= path@.skip(i as int + 1));
        assert(path@.skip(i as int)[0] == path@[i as int]);
    }
    match n {
        Node::Dir { root_owned, entries } => {
            proof {
                lemma_entries_view(entries@);
            }
            let ghost old_ev = entries_view(entries@);
            let ghost name_v = path@[i as int];
            match find_idx(entries, &path.parts[i]) {
                Some(j) => {
                    proof {
                        lemma_find_v_at(old_ev, name_v, j as int);
                    }
                    if i + 1 == path.parts.len() {
                        let mut out = clone_entries(entries);
                        out.remove(j);
                        proof {
                            lemma_entries_view(out@);
                            lemma_remove_entry_at(old_ev, name_v, j as int);
                            assert(entries_view(out@) =~= old_ev.remove(j as int));
                        }
                        Node::Dir { root_owned: *root_owned, entries: out }
                    } else {
                        let child = remove_at(&entries[j].node, path, i + 1);
                        let mut out = clone_entries(entries);
                        out.remove(j);
                        out.insert(j, Entry { name: path.parts[i].clone(), node: child });
                        proof {
                            lemma_entries_view(out@);
                            lemma_set_entry_at(old_ev, name_v, node_view(child), j as int);
                            assert(entries_view(out@) =~= old_ev.update(
                                j as int,
                                (name_v, node_view(child)),
                            ));
                        }
                        Node::Dir { root_owned: *root_owned, entries: out }
                    }
                },
                None => {
                    proof {
                        lemma_find_v_absent(old_ev, name_v);
                        lemma_remove_entry_absent(old_ev, name_v);
                    }
                    clone_node(n)
                },
            }
        },
        _ => clone_node(n),
    }
}

/// An independent copy of an entry list.
pub fn clone_entries(entries: &Vec<Entry>) -> (r: Vec<Entry>)
    ensures
        r@.len() == entries@.len(),
        forall|k: int|
            0 <= k < entries@.len() ==> (#[trigger] r@[k]).name@ == entries@[k].name@
                && r@[k].node@ == entries@[k].node@,
{
    let mut out: Vec<Entry> = Vec::new();
    let mut j: usize = 0;
    while j < entries.len()
        invariant
            j <= entries@.len(),
            out@.len() == j,
            forall|k: int|
                0 <= k < j ==> (#[trigger] out@[k]).name@ == entries@[k].name@ && out@[k].node@
                    == entries@[k].node@,
        decreases entries@.len() - j,
    {
        let ent = Entry { name: entries[j].name.clone(), node: clone_node(&entries[j].node) };
        out.push(ent);
        j = j + 1;
    }
    out
}

/// The canonical path `path` resolves to, as [`canon_v`] describes.
pub fn canon(fs: &Node, path: &FsPath, fuel: u64) -> (r: Option<FsPath>)
    ensures
        match r {
            Some(p) => canon_v(fs@, path@, fuel as nat) == Some(p@),
            None => canon_v(fs@, path@, fuel as nat) is None,
        },
    decreases fuel,
{
    proof {
        assert(path@.skip(0) =~= path@);
    }
    match lookup_in(fs, path, 0) {
        Some(node) => match node {
            Node::Symlink { target } => if fuel == 0 {
                None
            } else {
                canon(fs, target, fuel - 1)
            },
            _ => Some(path.dup()),
        },
        None => None,
    }
}

/// The security gate's recursive ownership check, as [`all_root_v`]
/// describes.
#[verifier::loop_isolation(false)]
pub fn is_root_file(n: &Node) -> (r: bool)
    ensures
        r == all_root_v(n@),
    decreases n,
{
    match n {
        Node::File { root_owned, .. } => *root_owned,
        Node::Symlink { .. } => false,
        Node::Dir { root_owned, entries } => {
            proof {
                lemma_entries_view(entries@);
                lemma_all_root_list_v(entries_view(entries@));
            }
            if !*root_owned {
                return false;
            }
            let mut j: usize = 0;
            while j < entries.len()
                invariant
                    j <= entries@.len(),
                    entries_view(entries@).len() == entries@.len(),
                    forall|k: int|
                        0 <= k < entries@.len() ==> #[trigger] entries_view(entries@)[k] == (
                            entries@[k].name@,
                            node_view(entries@[k].node),
                        ),
                    forall|k: int|
                        0 <= k < j ==> all_root_v((#[trigger] entries_view(entries@)[k]).1),
                decreases entries@.len() - j,
            {
                proof {
                    assert(decreases_to!(entries@ => entries@[j as int]));
                }
                if !is_root_file(&entries[j].node) {
                    proof {
                        lemma_all_root_list_v(entries_view(entries@));
                        assert(!all_root_v(entries_view(entries@)[j as int].1));
                    }
                    return false;
                }
                j = j + 1;
            }
            proof {
                lemma_all_root_list_v(entries_view(entries@));
            }
            true
        },
    }
}

} // verus!
