//! The laws the merge engine obeys, proved once and for all against the
//! specification functions of [`crate::stower`].

use vstd::prelude::*;

use crate::action::ActionV;
use crate::fsmodel::{
    all_root_v, canon_v, find_v, is_prefix, lemma_find_concat, lemma_find_push_other,
    lemma_find_remove_entry_other, lemma_find_v_absent, lemma_find_v_at, lemma_find_v_none_all,
    lemma_lookup_parent, lemma_lookup_set_frame, lemma_lookup_snoc, lemma_prefix_push,
    lemma_remove_entry_concat, lemma_remove_push, lemma_remove_set_roundtrip,
    lemma_set_entry_absent, lemma_set_identity, lemma_set_overwrite, lemma_set_push,
    lemma_set_then_lookup, lookup_v, remove_entry_v, remove_v, set_v, NodeV,
};
use crate::stower::{
    adopt_exchange_v, resolve_dest_v, visit_v, walk_v, CfgV, Op, StowError, CANON_FUEL,
};

verus! {

/// The security gate refuses: an `@root` entry that is not wholly
/// root-owned is skipped while the security check is on — under any
/// operation, the tree is untouched and no mutation is recorded.
pub proof fn lemma_security_gate_refuses(
    op: Op,
    cfg: CfgV,
    fs: NodeV,
    orig: NodeV,
    orig_path: Seq<Seq<char>>,
    dest: Seq<Seq<char>>,
    depth: nat,
)
    requires
        cfg.special_paths,
        cfg.security_check,
        orig_path.len() > 0,
        orig_path.last() == "@root"@,
        !all_root_v(orig),
    ensures
        visit_v(op, cfg, fs, orig, orig_path, dest, true, depth) == (
            fs,
            Seq::<ActionV>::empty(),
            None::<StowError>,
        ),
{
    reveal_strlit("@root");
    reveal_strlit("@home");
    assert(("@root")@[1] == 'r');
    assert(("@home")@[1] == 'h');
    assert(("@root")@ != ("@home")@);
}

/// The security gate stands down: with the security check disabled, an
/// `@root` entry resolves to the filesystem root whatever its ownership.
pub proof fn lemma_security_gate_disabled(
    cfg: CfgV,
    fs: NodeV,
    orig: NodeV,
    orig_path: Seq<Seq<char>>,
    dest: Seq<Seq<char>>,
)
    requires
        cfg.special_paths,
        !cfg.security_check,
        cfg.replace is None,
        orig_path.len() > 0,
        orig_path.last() == "@root"@,
    ensures
        resolve_dest_v(cfg, fs, orig, orig_path, dest, true) == Ok::<
            Option<Seq<Seq<char>>>,
            StowError,
        >(Some(Seq::<Seq<char>>::empty())),
{
    reveal_strlit("@root");
    reveal_strlit("@home");
    assert(("@root")@[1] == 'r');
    assert(("@home")@[1] == 'h');
    assert(("@root")@ != ("@home")@);
}

/// Adopt safety: when the move of the target file onto the package path
/// fails, the exchange leaves the tree exactly as it was — the package's
/// file is back in place, byte for byte, with nothing half-moved.
pub proof fn lemma_adopt_failure_restores(
    fs: NodeV,
    orig_path: Seq<Seq<char>>,
    dest: Seq<Seq<char>>,
    dnode: NodeV,
)
    ensures
        adopt_exchange_v(fs, orig_path, dest, dnode, false).0 == fs,
{
}

/// Round trip: unstowing an entry right after stowing it restores the
/// target area to its pre-stow state.  Stowing into a clean destination
/// creates exactly one symlink, and unstowing removes exactly that
/// symlink.
pub proof fn lemma_stow_unstow_round_trip(
    cfg: CfgV,
    fs: NodeV,
    orig: NodeV,
    orig_path: Seq<Seq<char>>,
    dest: Seq<Seq<char>>,
    depth: nat,
)
    requires
        cfg.replace is None,
        orig_path.len() > 0,
        dest.len() > 0,
        !(orig is Symlink),
        lookup_v(fs, dest) is None,
        lookup_v(fs, dest.drop_last()) matches Some(NodeV::Dir { .. }),
    ensures
        ({
            let (fs1, a1, e1) = visit_v(Op::Stow, cfg, fs, orig, orig_path, dest, false, depth);
            let (fs2, a2, e2) = visit_v(Op::Unstow, cfg, fs1, orig, orig_path, dest, false, depth);
            &&& fs2 == fs
            &&& e1 is None
            &&& e2 is None
            &&& a1 == seq![ActionV::CreateSymlink { original: orig_path, destination: dest }]
            &&& a2 == seq![ActionV::RemoveSymlink { destination: dest }]
        }),
{
    let link = NodeV::Symlink { target: orig_path };
    lemma_set_then_lookup(fs, dest, link);
    lemma_remove_set_roundtrip(fs, dest, link);
}

/// Idempotence: stowing an entry into a clean destination and stowing it
/// once more leaves the tree exactly as after the first pass — the second
/// pass finds the entry already stowed, changes nothing and records no
/// mutation.
pub proof fn lemma_stow_idempotent(
    cfg: CfgV,
    fs: NodeV,
    orig: NodeV,
    orig_path: Seq<Seq<char>>,
    dest: Seq<Seq<char>>,
    depth: nat,
)
    requires
        cfg.replace is None,
        orig_path.len() > 0,
        dest.len() > 0,
        !(orig is Symlink),
        lookup_v(fs, dest) is None,
        lookup_v(fs, dest.drop_last()) matches Some(NodeV::Dir { .. }),
        lookup_v(fs, orig_path) == Some(orig),
        !is_prefix(dest, orig_path),
        !is_prefix(orig_path, dest),
    ensures
        ({
            let (fs1, a1, e1) = visit_v(Op::Stow, cfg, fs, orig, orig_path, dest, false, depth);
            let (fs2, a2, e2) = visit_v(Op::Stow, cfg, fs1, orig, orig_path, dest, false, depth);
            &&& fs2 == fs1
            &&& a2 == Seq::<ActionV>::empty()
            &&& e1 is None
            &&& e2 is None
        }),
{
    let link = NodeV::Symlink { target: orig_path };
    lemma_set_then_lookup(fs, dest, link);
    lemma_lookup_set_frame(fs, dest, link, orig_path);
}

/// The entry list a directory of plain files turns into when each file
/// is stowed: one symlink per file, under the file's name.
pub open spec fn syms_of(
    entries: Seq<(Seq<char>, NodeV)>,
    orig_dir: Seq<Seq<char>>,
) -> Seq<(Seq<char>, NodeV)> {
    Seq::new(
        entries.len(),
        |i: int| (entries[i].0, NodeV::Symlink { target: orig_dir.push(entries[i].0) }),
    )
}

/// The mutations that stow records for those files, in order.
pub open spec fn creates_of(
    entries: Seq<(Seq<char>, NodeV)>,
    orig_dir: Seq<Seq<char>>,
    dest: Seq<Seq<char>>,
) -> Seq<ActionV> {
    Seq::new(
        entries.len(),
        |i: int| ActionV::CreateSymlink {
            original: orig_dir.push(entries[i].0),
            destination: dest.push(entries[i].0),
        },
    )
}

/// Stowing a list of plain files into an existing directory that holds
/// none of their names appends one symlink per file to that directory
/// and records exactly the matching mutations.
pub proof fn lemma_walk_files(
    cfg: CfgV,
    fs: NodeV,
    entries: Seq<(Seq<char>, NodeV)>,
    orig_dir: Seq<Seq<char>>,
    dest: Seq<Seq<char>>,
    depth: nat,
    d0: Seq<(Seq<char>, NodeV)>,
    ro: bool,
)
    requires
        cfg.replace is None,
        orig_dir.len() > 0,
        dest.len() > 0,
        lookup_v(fs, dest) == Some(NodeV::Dir { root_owned: ro, entries: d0 }),
        forall|i: int| 0 <= i < entries.len() ==> (#[trigger] entries[i]).1 is File,
        forall|i: int| 0 <= i < entries.len() ==> find_v(d0, (#[trigger] entries[i]).0) is None,
        forall|i: int, j: int|
            0 <= i < j < entries.len() ==> (#[trigger] entries[i]).0 != (#[trigger] entries[j]).0,
    ensures
        walk_v(Op::Stow, cfg, fs, entries, orig_dir, dest, false, depth) == (
            set_v(fs, dest, NodeV::Dir { root_owned: ro, entries: d0 + syms_of(entries, orig_dir) }),
            creates_of(entries, orig_dir, dest),
        ),
    decreases entries.len(),
{
    if entries.len() == 0 {
        assert(d0 + syms_of(entries, orig_dir) =~= d0);
        assert(NodeV::Dir { root_owned: ro, entries: d0 + syms_of(entries, orig_dir) }
            =~= NodeV::Dir { root_owned: ro, entries: d0 });
        lemma_set_identity(fs, dest, NodeV::Dir { root_owned: ro, entries: d0 });
        assert(creates_of(entries, orig_dir, dest) =~= Seq::<ActionV>::empty());
    } else {
        let name = entries[0].0;
        let head = entries[0].1;
        let d1 = dest.push(name);
        let link = NodeV::Symlink { target: orig_dir.push(name) };
        // The head file lands as a fresh symlink in the destination
        // directory.
        lemma_lookup_snoc(fs, dest, name);
        assert(d1.drop_last() =~= dest);
        lemma_lookup_parent(fs, dest);
        let fs1 = set_v(fs, d1, link);
        assert(visit_v(Op::Stow, cfg, fs, head, orig_dir.push(name), d1, false, depth) == (
            fs1,
            seq![ActionV::CreateSymlink { original: orig_dir.push(name), destination: d1 }],
            None::<StowError>,
        ));
        let d0b = d0.push((name, link));
        lemma_set_push(fs, dest, name, link);
        lemma_find_v_none_all(d0, name);
        lemma_set_entry_absent(d0, name, link);
        assert(fs1 == set_v(fs, dest, NodeV::Dir { root_owned: ro, entries: d0b }));
        lemma_set_then_lookup(fs, dest, NodeV::Dir { root_owned: ro, entries: d0b });
        // The rest of the list goes into the grown directory.
        let tail = entries.drop_first();
        assert forall|i: int| 0 <= i < tail.len() implies find_v(
            d0b,
            (#[trigger] tail[i]).0,
        ) is None by {
            assert(tail[i] == entries[i + 1]);
            assert(entries[i + 1].0 != name);
            lemma_find_push_other(d0, name, link, tail[i].0);
        }
        assert(forall|i: int| 0 <= i < tail.len() ==> (#[trigger] tail[i]).1 is File);
        assert(forall|i: int, j: int|
            0 <= i < j < tail.len() ==> (#[trigger] tail[i]).0 != (#[trigger] tail[j]).0);
        lemma_walk_files(cfg, fs1, tail, orig_dir, dest, depth, d0b, ro);
        // Collapse the two writes at the destination into one.
        lemma_set_overwrite(
            fs,
            dest,
            NodeV::Dir { root_owned: ro, entries: d0b },
            NodeV::Dir { root_owned: ro, entries: d0b + syms_of(tail, orig_dir) },
        );
        assert(d0b + syms_of(tail, orig_dir) =~= d0 + syms_of(entries, orig_dir));
        assert(NodeV::Dir { root_owned: ro, entries: d0b + syms_of(tail, orig_dir) }
            =~= NodeV::Dir { root_owned: ro, entries: d0 + syms_of(entries, orig_dir) });
        assert(seq![
            ActionV::CreateSymlink { original: orig_dir.push(name), destination: d1 },
        ] + creates_of(tail, orig_dir, dest) =~= creates_of(entries, orig_dir, dest));
    }
}

/// Merge correctness: stowing package A's directory entry and then
/// package B's entry of the same name, each a directory of plain files
/// with no name shared, converts the destination into a real directory
/// holding one symlink for every child of A and every child of B —
/// neither package's contribution is lost.
pub proof fn lemma_stow_merges(
    cfg: CfgV,
    fs: NodeV,
    ea: Seq<(Seq<char>, NodeV)>,
    ra: bool,
    eb: Seq<(Seq<char>, NodeV)>,
    rb: bool,
    apath: Seq<Seq<char>>,
    bpath: Seq<Seq<char>>,
    dest: Seq<Seq<char>>,
    depth: nat,
)
    requires
        cfg.replace is None,
        dest.len() > 0,
        apath.len() > 0,
        bpath.len() > 0,
        apath != bpath,
        depth >= 1,
        lookup_v(fs, dest) is None,
        lookup_v(fs, dest.drop_last()) matches Some(NodeV::Dir { .. }),
        lookup_v(fs, apath) == Some(NodeV::Dir { root_owned: ra, entries: ea }),
        !is_prefix(dest, apath),
        !is_prefix(apath, dest),
        forall|i: int| 0 <= i < ea.len() ==> (#[trigger] ea[i]).1 is File,
        forall|i: int| 0 <= i < eb.len() ==> (#[trigger] eb[i]).1 is File,
        forall|i: int, j: int|
            0 <= i < j < ea.len() ==> (#[trigger] ea[i]).0 != (#[trigger] ea[j]).0,
        forall|i: int, j: int|
            0 <= i < j < eb.len() ==> (#[trigger] eb[i]).0 != (#[trigger] eb[j]).0,
        forall|i: int, j: int|
            0 <= i < ea.len() && 0 <= j < eb.len() ==> (#[trigger] ea[i]).0 != (
            #[trigger] eb[j]).0,
    ensures
        ({
            let a_node = NodeV::Dir { root_owned: ra, entries: ea };
            let b_node = NodeV::Dir { root_owned: rb, entries: eb };
            let (fs1, a1, e1) = visit_v(Op::Stow, cfg, fs, a_node, apath, dest, false, depth);
            let (fs2, a2, e2) = visit_v(Op::Stow, cfg, fs1, b_node, bpath, dest, false, depth);
            &&& e1 is None
            &&& e2 is None
            &&& lookup_v(fs2, dest) == Some(
                NodeV::Dir {
                    root_owned: false,
                    entries: syms_of(ea, apath) + syms_of(eb, bpath),
                },
            )
        }),
{
    let a_node = NodeV::Dir { root_owned: ra, entries: ea };
    let b_node = NodeV::Dir { root_owned: rb, entries: eb };
    let link = NodeV::Symlink { target: apath };
    // First stow: the destination is clean, so A's entry becomes one
    // symlink.
    let fs1 = set_v(fs, dest, link);
    lemma_set_then_lookup(fs, dest, link);
    // Second stow: the symlink points into A, not B, so it is converted
    // into a fresh real directory.
    lemma_lookup_set_frame(fs, dest, link, apath);
    lemma_remove_set_roundtrip(fs, dest, link);
    let empty_dir = NodeV::Dir { root_owned: false, entries: Seq::empty() };
    let fs2 = set_v(fs, dest, empty_dir);
    lemma_set_then_lookup(fs, dest, empty_dir);
    // A's children are stowed into the fresh directory...
    assert(forall|i: int|
        0 <= i < ea.len() ==> find_v(Seq::<(Seq<char>, NodeV)>::empty(), (#[trigger] ea[i]).0)
            is None);
    lemma_walk_files(cfg, fs2, ea, apath, dest, (depth - 1) as nat, Seq::empty(), false);
    let da = Seq::<(Seq<char>, NodeV)>::empty() + syms_of(ea, apath);
    assert(da =~= syms_of(ea, apath));
    let fs3 = set_v(fs2, dest, NodeV::Dir { root_owned: false, entries: da });
    lemma_lookup_parent(fs2, dest);
    lemma_set_then_lookup(fs2, dest, NodeV::Dir { root_owned: false, entries: da });
    // ... and then B's children, whose names are all new there.
    assert forall|i: int| 0 <= i < eb.len() implies find_v(da, (#[trigger] eb[i]).0) is None by {
        assert forall|k: int| 0 <= k < da.len() implies (#[trigger] da[k]).0 != eb[i].0 by {
            assert(da[k].0 == ea[k].0);
        }
        lemma_find_v_absent(da, eb[i].0);
    }
    lemma_walk_files(cfg, fs3, eb, bpath, dest, (depth - 1) as nat, da, false);
    let dab = da + syms_of(eb, bpath);
    let fs4 = set_v(fs3, dest, NodeV::Dir { root_owned: false, entries: dab });
    lemma_lookup_parent(fs3, dest);
    lemma_set_then_lookup(fs3, dest, NodeV::Dir { root_owned: false, entries: dab });
    assert(dab =~= syms_of(ea, apath) + syms_of(eb, bpath));
    assert(NodeV::Dir { root_owned: false, entries: dab } =~= NodeV::Dir {
        root_owned: false,
        entries: syms_of(ea, apath) + syms_of(eb, bpath),
    });
}

/// The mutations that unstow records for those files, in order.
pub open spec fn removes_of(
    entries: Seq<(Seq<char>, NodeV)>,
    dest: Seq<Seq<char>>,
) -> Seq<ActionV> {
    Seq::new(
        entries.len(),
        |i: int| ActionV::RemoveSymlink { destination: dest.push(entries[i].0) },
    )
}

/// The directory's entry list once each of the names has been removed.
pub open spec fn remove_names(
    d: Seq<(Seq<char>, NodeV)>,
    entries: Seq<(Seq<char>, NodeV)>,
) -> Seq<(Seq<char>, NodeV)>
    decreases entries.len(),
{
    if entries.len() == 0 {
        d
    } else {
        remove_names(remove_entry_v(d, entries[0].0), entries.drop_first())
    }
}

/// Unstowing a list of plain files whose destinations are all symlinks
/// removes exactly those symlinks from the destination directory.
pub proof fn lemma_unwalk_files(
    cfg: CfgV,
    fs: NodeV,
    entries: Seq<(Seq<char>, NodeV)>,
    orig_dir: Seq<Seq<char>>,
    dest: Seq<Seq<char>>,
    depth: nat,
    d: Seq<(Seq<char>, NodeV)>,
    ro: bool,
)
    requires
        cfg.replace is None,
        orig_dir.len() > 0,
        dest.len() > 0,
        lookup_v(fs, dest) == Some(NodeV::Dir { root_owned: ro, entries: d }),
        forall|i: int| 0 <= i < entries.len() ==> (#[trigger] entries[i]).1 is File,
        forall|i: int|
            0 <= i < entries.len() ==> find_v(d, (#[trigger] entries[i]).0) matches Some(
                NodeV::Symlink { .. },
            ),
        forall|i: int, j: int|
            0 <= i < j < entries.len() ==> (#[trigger] entries[i]).0 != (#[trigger] entries[j]).0,
    ensures
        walk_v(Op::Unstow, cfg, fs, entries, orig_dir, dest, false, depth) == (
            set_v(fs, dest, NodeV::Dir { root_owned: ro, entries: remove_names(d, entries) }),
            removes_of(entries, dest),
        ),
    decreases entries.len(),
{
    if entries.len() == 0 {
        assert(NodeV::Dir { root_owned: ro, entries: remove_names(d, entries) } =~= NodeV::Dir {
            root_owned: ro,
            entries: d,
        });
        lemma_set_identity(fs, dest, NodeV::Dir { root_owned: ro, entries: d });
        assert(removes_of(entries, dest) =~= Seq::<ActionV>::empty());
    } else {
        let name = entries[0].0;
        let d1 = dest.push(name);
        // The head's destination is a symlink; unstow removes it.
        lemma_lookup_snoc(fs, dest, name);
        let fs1 = remove_v(fs, d1);
        assert(visit_v(Op::Unstow, cfg, fs, entries[0].1, orig_dir.push(name), d1, false, depth)
            == (fs1, seq![ActionV::RemoveSymlink { destination: d1 }], None::<StowError>));
        let d2 = remove_entry_v(d, name);
        lemma_remove_push(fs, dest, name);
        assert(fs1 == set_v(fs, dest, NodeV::Dir { root_owned: ro, entries: d2 }));
        lemma_lookup_parent(fs, dest);
        lemma_set_then_lookup(fs, dest, NodeV::Dir { root_owned: ro, entries: d2 });
        // The rest still find their symlinks: removing the head's entry
        // hides no other name.
        let tail = entries.drop_first();
        assert forall|i: int| 0 <= i < tail.len() implies find_v(
            d2,
            (#[trigger] tail[i]).0,
        ) matches Some(NodeV::Symlink { .. }) by {
            assert(tail[i] == entries[i + 1]);
            assert(tail[i].0 != name);
            lemma_find_remove_entry_other(d, name, tail[i].0);
        }
        assert(forall|i: int| 0 <= i < tail.len() ==> (#[trigger] tail[i]).1 is File);
        lemma_unwalk_files(cfg, fs1, tail, orig_dir, dest, depth, d2, ro);
        lemma_set_overwrite(
            fs,
            dest,
            NodeV::Dir { root_owned: ro, entries: d2 },
            NodeV::Dir { root_owned: ro, entries: remove_names(d2, tail) },
        );
        assert(remove_names(d, entries) == remove_names(d2, tail));
        assert(seq![ActionV::RemoveSymlink { destination: d1 }] + removes_of(tail, dest)
            =~= removes_of(entries, dest));
    }
}

/// Removing each stowed name from the grown directory gives back the
/// directory stow started from.
pub proof fn lemma_remove_names_of_syms(
    d0: Seq<(Seq<char>, NodeV)>,
    entries: Seq<(Seq<char>, NodeV)>,
    orig_dir: Seq<Seq<char>>,
)
    requires
        forall|i: int| 0 <= i < entries.len() ==> find_v(d0, (#[trigger] entries[i]).0) is None,
        forall|i: int, j: int|
            0 <= i < j < entries.len() ==> (#[trigger] entries[i]).0 != (#[trigger] entries[j]).0,
    ensures
        remove_names(d0 + syms_of(entries, orig_dir), entries) == d0,
    decreases entries.len(),
{
    if entries.len() == 0 {
        assert(d0 + syms_of(entries, orig_dir) =~= d0);
    } else {
        let name = entries[0].0;
        let tail = entries.drop_first();
        lemma_remove_entry_concat(d0, syms_of(entries, orig_dir), name);
        assert(syms_of(entries, orig_dir)[0].0 == name);
        assert(remove_entry_v(syms_of(entries, orig_dir), name) =~= syms_of(
            entries,
            orig_dir,
        ).drop_first());
        assert(syms_of(entries, orig_dir).drop_first() =~= syms_of(tail, orig_dir));
        assert(forall|i: int|
            0 <= i < tail.len() ==> (#[trigger] tail[i]) == entries[i + 1]);
        lemma_remove_names_of_syms(d0, tail, orig_dir);
    }
}

/// Round trip, a whole package at a time: stowing a directory of plain
/// files into a target directory that holds none of their names, then
/// unstowing the same list, restores the target area exactly.
pub proof fn lemma_stow_unstow_package(
    cfg: CfgV,
    fs: NodeV,
    entries: Seq<(Seq<char>, NodeV)>,
    orig_dir: Seq<Seq<char>>,
    dest: Seq<Seq<char>>,
    depth: nat,
    d0: Seq<(Seq<char>, NodeV)>,
    ro: bool,
)
    requires
        cfg.replace is None,
        orig_dir.len() > 0,
        dest.len() > 0,
        lookup_v(fs, dest) == Some(NodeV::Dir { root_owned: ro, entries: d0 }),
        forall|i: int| 0 <= i < entries.len() ==> (#[trigger] entries[i]).1 is File,
        forall|i: int| 0 <= i < entries.len() ==> find_v(d0, (#[trigger] entries[i]).0) is None,
        forall|i: int, j: int|
            0 <= i < j < entries.len() ==> (#[trigger] entries[i]).0 != (#[trigger] entries[j]).0,
    ensures
        ({
            let (fs1, a1) = walk_v(Op::Stow, cfg, fs, entries, orig_dir, dest, false, depth);
            let (fs2, a2) = walk_v(Op::Unstow, cfg, fs1, entries, orig_dir, dest, false, depth);
            &&& fs2 == fs
            &&& a1 == creates_of(entries, orig_dir, dest)
            &&& a2 == removes_of(entries, dest)
        }),
{
    lemma_walk_files(cfg, fs, entries, orig_dir, dest, depth, d0, ro);
    let grown = d0 + syms_of(entries, orig_dir);
    let fs1 = set_v(fs, dest, NodeV::Dir { root_owned: ro, entries: grown });
    lemma_lookup_parent(fs, dest);
    lemma_set_then_lookup(fs, dest, NodeV::Dir { root_owned: ro, entries: grown });
    assert forall|i: int| 0 <= i < entries.len() implies find_v(
        grown,
        (#[trigger] entries[i]).0,
    ) matches Some(NodeV::Symlink { .. }) by {
        lemma_find_concat(d0, syms_of(entries, orig_dir), entries[i].0);
        assert forall|k: int| 0 <= k < i implies (#[trigger] syms_of(entries, orig_dir)[k]).0
            != entries[i].0 by {
            assert(syms_of(entries, orig_dir)[k].0 == entries[k].0);
        }
        lemma_find_v_at(syms_of(entries, orig_dir), entries[i].0, i);
    }
    lemma_unwalk_files(cfg, fs1, entries, orig_dir, dest, depth, grown, ro);
    lemma_remove_names_of_syms(d0, entries, orig_dir);
    lemma_set_overwrite(
        fs,
        dest,
        NodeV::Dir { root_owned: ro, entries: grown },
        NodeV::Dir { root_owned: ro, entries: remove_names(grown, entries) },
    );
    assert(NodeV::Dir { root_owned: ro, entries: remove_names(grown, entries) } =~= NodeV::Dir {
        root_owned: ro,
        entries: d0,
    });
    lemma_set_identity(fs, dest, NodeV::Dir { root_owned: ro, entries: d0 });
}

/// Idempotence, a whole package at a time: once a directory of plain
/// files is stowed, stowing the same list again finds every destination
/// already pointing at the package and changes nothing — no mutation is
/// recorded and no prompt is owed.
pub proof fn lemma_stow_idempotent_package(
    cfg: CfgV,
    fs: NodeV,
    entries: Seq<(Seq<char>, NodeV)>,
    orig_dir: Seq<Seq<char>>,
    dest: Seq<Seq<char>>,
    depth: nat,
    d0: Seq<(Seq<char>, NodeV)>,
    ro: bool,
)
    requires
        cfg.replace is None,
        orig_dir.len() > 0,
        dest.len() > 0,
        lookup_v(fs, dest) == Some(NodeV::Dir { root_owned: ro, entries: d0 }),
        (match lookup_v(fs, orig_dir) {
            Some(NodeV::Dir { entries: pkg_entries, .. }) => forall|i: int|
                0 <= i < entries.len() ==> find_v(pkg_entries, (#[trigger] entries[i]).0) == Some(
                    entries[i].1,
                ),
            _ => false,
        }),
        !is_prefix(dest, orig_dir),
        !is_prefix(orig_dir, dest),
        forall|i: int| 0 <= i < entries.len() ==> (#[trigger] entries[i]).1 is File,
        forall|i: int| 0 <= i < entries.len() ==> find_v(d0, (#[trigger] entries[i]).0) is None,
        forall|i: int, j: int|
            0 <= i < j < entries.len() ==> (#[trigger] entries[i]).0 != (#[trigger] entries[j]).0,
    ensures
        ({
            let (fs1, a1) = walk_v(Op::Stow, cfg, fs, entries, orig_dir, dest, false, depth);
            let (fs2, a2) = walk_v(Op::Stow, cfg, fs1, entries, orig_dir, dest, false, depth);
            &&& fs2 == fs1
            &&& a2 == Seq::<ActionV>::empty()
        }),
{
    lemma_walk_files(cfg, fs, entries, orig_dir, dest, depth, d0, ro);
    let grown = d0 + syms_of(entries, orig_dir);
    let grown_dir = NodeV::Dir { root_owned: ro, entries: grown };
    let fs1 = set_v(fs, dest, grown_dir);
    lemma_lookup_parent(fs, dest);
    lemma_set_then_lookup(fs, dest, grown_dir);
    // Each stowed name is found in the grown directory as the symlink
    // into the package...
    assert forall|i: int| 0 <= i < entries.len() implies find_v(
        grown,
        (#[trigger] entries[i]).0,
    ) == Some(NodeV::Symlink { target: orig_dir.push(entries[i].0) }) by {
        lemma_find_concat(d0, syms_of(entries, orig_dir), entries[i].0);
        assert forall|k: int| 0 <= k < i implies (#[trigger] syms_of(entries, orig_dir)[k]).0
            != entries[i].0 by {
            assert(syms_of(entries, orig_dir)[k].0 == entries[k].0);
        }
        lemma_find_v_at(syms_of(entries, orig_dir), entries[i].0, i);
    }
    // ... and the package itself is untouched by the write at the
    // destination, so every symlink still resolves to the package file.
    assert forall|i: int| 0 <= i < entries.len() implies lookup_v(
        fs1,
        orig_dir.push((#[trigger] entries[i]).0),
    ) == Some(entries[i].1) by {
        lemma_prefix_push(dest, orig_dir, entries[i].0);
        lemma_lookup_set_frame(fs, dest, grown_dir, orig_dir.push(entries[i].0));
        lemma_lookup_snoc(fs, orig_dir, entries[i].0);
    }
    assert(entries.skip(0) =~= entries);
    lemma_walk_stowed_noop(cfg, fs1, entries, orig_dir, dest, depth, grown, ro, 0);
}

/// Idempotence through a pre-existing directory: a package directory of
/// plain files stowed into a real destination directory, then stowed
/// again, leaves the tree as after the first pass — the second pass
/// recurses, finds every child already stowed, and changes nothing.
pub proof fn lemma_stow_idempotent_into_dir(
    cfg: CfgV,
    fs: NodeV,
    ed: Seq<(Seq<char>, NodeV)>,
    rp: bool,
    orig_path: Seq<Seq<char>>,
    dest: Seq<Seq<char>>,
    depth: nat,
    d0: Seq<(Seq<char>, NodeV)>,
    ro: bool,
)
    requires
        cfg.replace is None,
        orig_path.len() > 0,
        dest.len() > 0,
        lookup_v(fs, dest) == Some(NodeV::Dir { root_owned: ro, entries: d0 }),
        lookup_v(fs, orig_path) == Some(NodeV::Dir { root_owned: rp, entries: ed }),
        !is_prefix(dest, orig_path),
        !is_prefix(orig_path, dest),
        forall|i: int| 0 <= i < ed.len() ==> (#[trigger] ed[i]).1 is File,
        forall|i: int| 0 <= i < ed.len() ==> find_v(d0, (#[trigger] ed[i]).0) is None,
        forall|i: int, j: int|
            0 <= i < j < ed.len() ==> (#[trigger] ed[i]).0 != (#[trigger] ed[j]).0,
    ensures
        ({
            let orig = NodeV::Dir { root_owned: rp, entries: ed };
            let (fs1, a1, e1) = visit_v(Op::Stow, cfg, fs, orig, orig_path, dest, false, depth);
            let (fs2, a2, e2) = visit_v(Op::Stow, cfg, fs1, orig, orig_path, dest, false, depth);
            &&& fs2 == fs1
            &&& a1 == creates_of(ed, orig_path, dest)
            &&& a2 == Seq::<ActionV>::empty()
            &&& e1 is None
            &&& e2 is None
        }),
{
    lemma_walk_files(cfg, fs, ed, orig_path, dest, depth, d0, ro);
    let grown = d0 + syms_of(ed, orig_path);
    let grown_dir = NodeV::Dir { root_owned: ro, entries: grown };
    let fs1 = set_v(fs, dest, grown_dir);
    lemma_lookup_parent(fs, dest);
    lemma_set_then_lookup(fs, dest, grown_dir);
    assert forall|i: int| 0 <= i < ed.len() implies find_v(grown, (#[trigger] ed[i]).0) == Some(
        NodeV::Symlink { target: orig_path.push(ed[i].0) },
    ) by {
        lemma_find_concat(d0, syms_of(ed, orig_path), ed[i].0);
        assert forall|k: int| 0 <= k < i implies (#[trigger] syms_of(ed, orig_path)[k]).0
            != ed[i].0 by {
            assert(syms_of(ed, orig_path)[k].0 == ed[k].0);
        }
        lemma_find_v_at(syms_of(ed, orig_path), ed[i].0, i);
    }
    assert forall|i: int| 0 <= i < ed.len() implies lookup_v(
        fs1,
        orig_path.push((#[trigger] ed[i]).0),
    ) == Some(ed[i].1) by {
        lemma_prefix_push(dest, orig_path, ed[i].0);
        lemma_lookup_set_frame(fs, dest, grown_dir, orig_path.push(ed[i].0));
        lemma_lookup_snoc(fs, orig_path, ed[i].0);
        assert forall|k: int| 0 <= k < i implies (#[trigger] ed[k]).0 != ed[i].0 by {}
        lemma_find_v_at(ed, ed[i].0, i);
    }
    assert(ed.skip(0) =~= ed);
    lemma_walk_stowed_noop(cfg, fs1, ed, orig_path, dest, depth, grown, ro, 0);
}

/// Round trip through a pre-existing directory: a package directory of
/// plain files stowed into a real destination directory that already
/// held something else, then unstowed, restores the tree exactly — the
/// destination directory is left with its prior contents and is not
/// removed, because it is not empty.
pub proof fn lemma_stow_unstow_into_dir(
    cfg: CfgV,
    fs: NodeV,
    ed: Seq<(Seq<char>, NodeV)>,
    rp: bool,
    orig_path: Seq<Seq<char>>,
    dest: Seq<Seq<char>>,
    depth: nat,
    d0: Seq<(Seq<char>, NodeV)>,
    ro: bool,
)
    requires
        cfg.replace is None,
        orig_path.len() > 0,
        dest.len() > 0,
        d0.len() > 0,
        lookup_v(fs, dest) == Some(NodeV::Dir { root_owned: ro, entries: d0 }),
        forall|i: int| 0 <= i < ed.len() ==> (#[trigger] ed[i]).1 is File,
        forall|i: int| 0 <= i < ed.len() ==> find_v(d0, (#[trigger] ed[i]).0) is None,
        forall|i: int, j: int|
            0 <= i < j < ed.len() ==> (#[trigger] ed[i]).0 != (#[trigger] ed[j]).0,
    ensures
        ({
            let orig = NodeV::Dir { root_owned: rp, entries: ed };
            let (fs1, a1, e1) = visit_v(Op::Stow, cfg, fs, orig, orig_path, dest, false, depth);
            let (fs2, a2, e2) = visit_v(Op::Unstow, cfg, fs1, orig, orig_path, dest, false, depth);
            &&& fs2 == fs
            &&& e1 is None
            &&& e2 is None
        }),
{
    lemma_walk_files(cfg, fs, ed, orig_path, dest, depth, d0, ro);
    let grown = d0 + syms_of(ed, orig_path);
    let grown_dir = NodeV::Dir { root_owned: ro, entries: grown };
    let fs1 = set_v(fs, dest, grown_dir);
    lemma_lookup_parent(fs, dest);
    lemma_set_then_lookup(fs, dest, grown_dir);
    assert forall|i: int| 0 <= i < ed.len() implies find_v(
        grown,
        (#[trigger] ed[i]).0,
    ) matches Some(NodeV::Symlink { .. }) by {
        lemma_find_concat(d0, syms_of(ed, orig_path), ed[i].0);
        assert forall|k: int| 0 <= k < i implies (#[trigger] syms_of(ed, orig_path)[k]).0
            != ed[i].0 by {
            assert(syms_of(ed, orig_path)[k].0 == ed[k].0);
        }
        lemma_find_v_at(syms_of(ed, orig_path), ed[i].0, i);
    }
    lemma_unwalk_files(cfg, fs1, ed, orig_path, dest, depth, grown, ro);
    lemma_remove_names_of_syms(d0, ed, orig_path);
    lemma_set_overwrite(
        fs,
        dest,
        grown_dir,
        NodeV::Dir { root_owned: ro, entries: remove_names(grown, ed) },
    );
    assert(NodeV::Dir { root_owned: ro, entries: remove_names(grown, ed) } =~= NodeV::Dir {
        root_owned: ro,
        entries: d0,
    });
    lemma_set_identity(fs, dest, NodeV::Dir { root_owned: ro, entries: d0 });
}

/// From any suffix on, a second stow pass over already-stowed plain
/// files changes nothing: each destination is a symlink resolving back
/// to the package entry it was made for.
proof fn lemma_walk_stowed_noop(
    cfg: CfgV,
    fs1: NodeV,
    entries: Seq<(Seq<char>, NodeV)>,
    orig_dir: Seq<Seq<char>>,
    dest: Seq<Seq<char>>,
    depth: nat,
    grown: Seq<(Seq<char>, NodeV)>,
    ro: bool,
    start: int,
)
    requires
        cfg.replace is None,
        0 <= start <= entries.len(),
        lookup_v(fs1, dest) == Some(NodeV::Dir { root_owned: ro, entries: grown }),
        forall|i: int| start <= i < entries.len() ==> (#[trigger] entries[i]).1 is File,
        forall|i: int|
            start <= i < entries.len() ==> find_v(grown, (#[trigger] entries[i]).0) == Some(
                NodeV::Symlink { target: orig_dir.push(entries[i].0) },
            ),
        forall|i: int|
            start <= i < entries.len() ==> lookup_v(
                fs1,
                orig_dir.push((#[trigger] entries[i]).0),
            ) == Some(entries[i].1),
    ensures
        walk_v(Op::Stow, cfg, fs1, entries.skip(start), orig_dir, dest, false, depth) == (
            fs1,
            Seq::<ActionV>::empty(),
        ),
    decreases entries.len() - start,
{
    if start < entries.len() {
        let suffix = entries.skip(start);
        assert(suffix[0] == entries[start]);
        assert(suffix.drop_first() =~= entries.skip(start + 1));
        let name = entries[start].0;
        let d1 = dest.push(name);
        lemma_lookup_snoc(fs1, dest, name);
        // The destination holds the symlink; it resolves to the package
        // file, which is not a directory, so the entry is skipped.
        assert(canon_v(fs1, orig_dir.push(name), CANON_FUEL as nat) == Some(
            orig_dir.push(name),
        ));
        assert(visit_v(
            Op::Stow,
            cfg,
            fs1,
            entries[start].1,
            orig_dir.push(name),
            d1,
            false,
            depth,
        ) == (fs1, Seq::<ActionV>::empty(), None::<StowError>));
        lemma_walk_stowed_noop(cfg, fs1, entries, orig_dir, dest, depth, grown, ro, start + 1);
        assert(Seq::<ActionV>::empty() + Seq::<ActionV>::empty() =~= Seq::<ActionV>::empty());
    } else {
        assert(entries.skip(start) =~= Seq::<(Seq<char>, NodeV)>::empty());
    }
}

} // verus!
