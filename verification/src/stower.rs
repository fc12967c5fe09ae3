//! The recursive merge engine and its per-entry state machine.
//!
//! The specification functions in this module say, entry by entry, what
//! each operation does to the modelled file tree and which mutations it
//! records; the executable engine below them is proved to return exactly
//! that.

use vstd::prelude::*;

use crate::action::{acts_view, lemma_acts_view, lemma_acts_view_push, Action, ActionV};
use crate::cmd::Args;
use crate::fsmodel::{
    all_root_v, canon, canon_v, clone_node, find_idx, is_root_file, lemma_entries_view, lookup_in,
    lookup_v, node_view, remove_at, remove_v, set_at, set_v, entries_view, Entry, Fs, Node, NodeV,
};
use crate::path::FsPath;
use crate::rename::{regex_is_valid, regex_replace_all, regex_valid, replaced_of};

verus! {

/// How many symlinks destination resolution follows before a chain is
/// reported as broken.
pub const CANON_FUEL: u64 = 32;

/// How deep the conversion of symlinked directories into merged real
/// directories may nest.
pub const MAX_MERGE_DEPTH: u64 = 64;

/// The operation a recursive walk performs on each entry.
#[derive(Clone, Copy)]
pub enum Op {
    Stow,
    Unstow,
    Adopt,
}

/// The answer every destructive-conflict prompt will receive.  The
/// operator's terminal lives outside the library, so a run is given its
/// answering policy up front.
#[derive(Clone, Copy)]
pub enum ConfirmPolicy {
    AcceptAll,
    DeclineAll,
}

/// Why a branch (or the construction of a run) was given up.
#[derive(Clone, Copy, Debug, PartialEq, Eq, Structural)]
pub enum StowError {
    /// An entry path with no final component.
    InvalidFileName,
    /// A directory path with no final component.
    InvalidDirectoryName,
    /// The name-rewrite pattern does not compile.
    InvalidPattern,
    /// A root that is not an existing directory.
    NotADirectory,
    /// A walk into something that is not a directory.
    NotWalkable,
    /// A symlink would be created where no parent directory exists.
    MissingParent,
    /// Symlinked directories nested deeper than the engine follows.
    TooDeep,
}

/// The engine configuration, as a mathematical value.
pub ghost struct CfgV {
    pub special_paths: bool,
    pub security_check: bool,
    pub replace: Option<(Seq<char>, Seq<char>)>,
    pub home: Option<Seq<Seq<char>>>,
    pub accept: bool,
}

/// Where an adopted package file is kept while the exchange is in flight.
pub open spec fn backup_dir_v() -> Seq<Seq<char>> {
    seq!["tmp"@, "rustow-backup"@]
}

/// Destination resolution for a reserved entry name, at the top recursion
/// level only.  `@home` goes to the home directory when one is known and
/// exists; `@root` goes to the filesystem root when the security gate
/// allows it; `None` means the branch is skipped.
pub open spec fn special_v(
    cfg: CfgV,
    fs: NodeV,
    orig: NodeV,
    orig_path: Seq<Seq<char>>,
    dest: Seq<Seq<char>>,
) -> Option<Seq<Seq<char>>> {
    if !cfg.special_paths {
        Some(dest)
    } else if orig_path.len() == 0 {
        None
    } else if orig_path.last() == "@home"@ {
        match cfg.home {
            Some(h) => if lookup_v(fs, h) is Some {
                Some(h)
            } else {
                None
            },
            None => None,
        }
    } else if orig_path.last() == "@root"@ {
        if !cfg.security_check || all_root_v(orig) {
            Some(Seq::empty())
        } else {
            None
        }
    } else {
        Some(dest)
    }
}

/// Full destination resolution: the keyword step when enabled at this
/// depth, then the optional rewrite of the final name.  `Ok(None)` means
/// the branch is skipped without error.
pub open spec fn resolve_dest_v(
    cfg: CfgV,
    fs: NodeV,
    orig: NodeV,
    orig_path: Seq<Seq<char>>,
    dest: Seq<Seq<char>>,
    use_special: bool,
) -> Result<Option<Seq<Seq<char>>>, StowError> {
    let resolved = if use_special {
        special_v(cfg, fs, orig, orig_path, dest)
    } else {
        Some(dest)
    };
    match resolved {
        None => Ok(None),
        Some(d) => match cfg.replace {
            Some(rule) => if !regex_valid(rule.0) {
                Err(StowError::InvalidPattern)
            } else if d.len() == 0 {
                Err(StowError::InvalidFileName)
            } else {
                Ok(Some(d.update(d.len() - 1, replaced_of(rule.0, d.last(), rule.1))))
            },
            None => Ok(Some(d)),
        },
    }
}

/// One entry visited by the walk: destination resolution, then the
/// per-operation state machine on the entry's link state.
pub open spec fn visit_v(
    op: Op,
    cfg: CfgV,
    fs: NodeV,
    orig: NodeV,
    orig_path: Seq<Seq<char>>,
    dest0: Seq<Seq<char>>,
    use_special: bool,
    depth: nat,
) -> (NodeV, Seq<ActionV>, Option<StowError>)
    decreases depth, orig, 3int,
{
    match resolve_dest_v(cfg, fs, orig, orig_path, dest0, use_special) {
        Err(e) => (fs, Seq::empty(), Some(e)),
        Ok(resolved) => match resolved {
            None => (fs, Seq::empty(), None),
            Some(dest) => if orig_path.len() == 0 {
                (fs, Seq::empty(), Some(StowError::InvalidFileName))
            } else {
                match op {
                    Op::Stow => stow_step_v(cfg, fs, orig, orig_path, dest, depth),
                    Op::Unstow => unstow_step_v(cfg, fs, orig, orig_path, dest, depth),
                    Op::Adopt => adopt_step_v(cfg, fs, orig, orig_path, dest, depth),
                }
            },
        },
    }
}

/// The stow state machine for one entry whose destination resolved to
/// `dest`.
pub open spec fn stow_step_v(
    cfg: CfgV,
    fs: NodeV,
    orig: NodeV,
    orig_path: Seq<Seq<char>>,
    dest: Seq<Seq<char>>,
    depth: nat,
) -> (NodeV, Seq<ActionV>, Option<StowError>)
    decreases depth, orig, 2int,
{
    if orig is Symlink {
        // Symlinks inside packages are not re-linked.
        (fs, Seq::empty(), None)
    } else {
        match lookup_v(fs, dest) {
            Some(dnode) => match dnode {
                NodeV::Symlink { target } => match canon_v(fs, target, CANON_FUEL as nat) {
                    Some(rpath) => match lookup_v(fs, rpath) {
                        Some(rnode) => if !(rnode is Dir) {
                            // A symlink to a file: already stowed.
                            (fs, Seq::empty(), None)
                        } else if rpath == orig_path {
                            // Already stowed here.
                            (fs, Seq::empty(), None)
                        } else {
                            // A symlink into another package: convert it
                            // into a real directory merging both.
                            let fs2 = set_v(
                                remove_v(fs, dest),
                                dest,
                                NodeV::Dir { root_owned: false, entries: Seq::empty() },
                            );
                            let acts = seq![
                                ActionV::RemoveSymlink { destination: dest },
                                ActionV::CreateDir { destination: dest },
                            ];
                            if depth == 0 {
                                (fs2, acts, Some(StowError::TooDeep))
                            } else {
                                let (fs3, a3, e3) = dir_walk_v(
                                    Op::Stow,
                                    cfg,
                                    fs2,
                                    rnode,
                                    rpath,
                                    dest,
                                    false,
                                    false,
                                    (depth - 1) as nat,
                                );
                                if e3 is Some {
                                    (fs3, acts + a3, e3)
                                } else {
                                    let (fs4, a4, e4) = dir_walk_v(
                                        Op::Stow,
                                        cfg,
                                        fs3,
                                        orig,
                                        orig_path,
                                        dest,
                                        false,
                                        false,
                                        (depth - 1) as nat,
                                    );
                                    (fs4, acts + a3 + a4, e4)
                                }
                            }
                        },
                        None => (fs, Seq::empty(), None),
                    },
                    None => if cfg.accept {
                        // A broken symlink, and the operator accepts
                        // replacing it.
                        (
                            set_v(remove_v(fs, dest), dest, NodeV::Symlink { target: orig_path }),
                            seq![
                                ActionV::RemoveSymlink { destination: dest },
                                ActionV::CreateSymlink { original: orig_path, destination: dest },
                            ],
                            None,
                        )
                    } else {
                        (fs, Seq::empty(), None)
                    },
                },
                NodeV::Dir { .. } => dir_walk_v(
                    Op::Stow,
                    cfg,
                    fs,
                    orig,
                    orig_path,
                    dest,
                    false,
                    false,
                    depth,
                ),
                NodeV::File { .. } => if cfg.accept {
                    // A real file in the way, and the operator accepts
                    // replacing it.
                    (
                        set_v(remove_v(fs, dest), dest, NodeV::Symlink { target: orig_path }),
                        seq![
                            ActionV::RemoveFile { destination: dest },
                            ActionV::CreateSymlink { original: orig_path, destination: dest },
                        ],
                        None,
                    )
                } else {
                    (fs, Seq::empty(), None)
                },
            },
            None => if lookup_v(fs, dest.drop_last()) matches Some(NodeV::Dir { .. }) {
                (
                    set_v(fs, dest, NodeV::Symlink { target: orig_path }),
                    seq![ActionV::CreateSymlink { original: orig_path, destination: dest }],
                    None,
                )
            } else {
                (fs, Seq::empty(), Some(StowError::MissingParent))
            },
        }
    }
}

/// The unstow state machine for one entry.
pub open spec fn unstow_step_v(
    cfg: CfgV,
    fs: NodeV,
    orig: NodeV,
    orig_path: Seq<Seq<char>>,
    dest: Seq<Seq<char>>,
    depth: nat,
) -> (NodeV, Seq<ActionV>, Option<StowError>)
    decreases depth, orig, 2int,
{
    if orig is Symlink {
        (fs, Seq::empty(), None)
    } else {
        match lookup_v(fs, dest) {
            None => (fs, Seq::empty(), None),
            Some(dnode) => match dnode {
                NodeV::Symlink { .. } => (
                    remove_v(fs, dest),
                    seq![ActionV::RemoveSymlink { destination: dest }],
                    None,
                ),
                NodeV::Dir { .. } => if orig is Dir {
                    dir_walk_v(Op::Unstow, cfg, fs, orig, orig_path, dest, false, true, depth)
                } else {
                    (fs, Seq::empty(), None)
                },
                NodeV::File { .. } => (fs, Seq::empty(), None),
            },
        }
    }
}

/// The adopt exchange of one pair of plain files, with the outcome of the
/// second move as an input: the package file is moved aside, the target
/// file is moved onto it, and on failure the package file is moved back,
/// leaving the tree exactly as it was.
pub open spec fn adopt_exchange_v(
    fs: NodeV,
    orig_path: Seq<Seq<char>>,
    dest: Seq<Seq<char>>,
    dnode: NodeV,
    second_move_ok: bool,
) -> (NodeV, Seq<ActionV>)
    recommends
        orig_path.len() > 0,
{
    let backup = backup_dir_v().push(orig_path.last());
    let acts0 = seq![
        ActionV::CreateDir { destination: backup_dir_v() },
        ActionV::MoveFile { from: orig_path, to: backup },
    ];
    if second_move_ok {
        (
            remove_v(set_v(fs, orig_path, dnode), dest),
            acts0 + seq![
                ActionV::MoveFile { from: dest, to: orig_path },
                ActionV::RemoveFile { destination: backup },
            ],
        )
    } else {
        (fs, acts0 + seq![ActionV::MoveFile { from: backup, to: orig_path }])
    }
}

/// The adopt state machine for one entry.  In the model every move
/// succeeds; [`adopt_exchange_v`] also says what a failed move leaves.
pub open spec fn adopt_step_v(
    cfg: CfgV,
    fs: NodeV,
    orig: NodeV,
    orig_path: Seq<Seq<char>>,
    dest: Seq<Seq<char>>,
    depth: nat,
) -> (NodeV, Seq<ActionV>, Option<StowError>)
    decreases depth, orig, 2int,
{
    match lookup_v(fs, dest) {
        None => (fs, Seq::empty(), None),
        Some(dnode) => if dnode is Symlink {
            (fs, Seq::empty(), None)
        } else if orig is Symlink {
            (fs, Seq::empty(), None)
        } else if dnode is Dir && orig is Dir {
            dir_walk_v(Op::Adopt, cfg, fs, orig, orig_path, dest, false, false, depth)
        } else if dnode is File && orig is File {
            let (fs2, acts) = adopt_exchange_v(fs, orig_path, dest, dnode, true);
            (fs2, acts, None)
        } else {
            (fs, Seq::empty(), None)
        },
    }
}

/// A walk over every entry of the directory `orig`, stowing, unstowing or
/// adopting each into `dest`; with `extra`, the emptied destination
/// directory is removed afterwards.
pub open spec fn dir_walk_v(
    op: Op,
    cfg: CfgV,
    fs: NodeV,
    orig: NodeV,
    orig_path: Seq<Seq<char>>,
    dest: Seq<Seq<char>>,
    use_special: bool,
    extra: bool,
    depth: nat,
) -> (NodeV, Seq<ActionV>, Option<StowError>)
    decreases depth, orig, 1int,
{
    if orig_path.len() == 0 {
        (fs, Seq::empty(), Some(StowError::InvalidDirectoryName))
    } else {
        match orig {
            NodeV::Dir { entries, .. } => {
                let (fs1, a1) = walk_v(op, cfg, fs, entries, orig_path, dest, use_special, depth);
                if extra {
                    match lookup_v(fs1, dest) {
                        Some(NodeV::Dir { entries: e2, .. }) => if e2.len() == 0 {
                            (
                                remove_v(fs1, dest),
                                a1.push(ActionV::RemoveDir { destination: dest }),
                                None,
                            )
                        } else {
                            (fs1, a1, None)
                        },
                        _ => (fs1, a1, None),
                    }
                } else {
                    (fs1, a1, None)
                }
            },
            _ => (fs, Seq::empty(), Some(StowError::NotWalkable)),
        }
    }
}

/// The entries of one directory visited in order; a failure on one entry
/// never stops its siblings.
pub open spec fn walk_v(
    op: Op,
    cfg: CfgV,
    fs: NodeV,
    entries: Seq<(Seq<char>, NodeV)>,
    orig_dir: Seq<Seq<char>>,
    dest_dir: Seq<Seq<char>>,
    use_special: bool,
    depth: nat,
) -> (NodeV, Seq<ActionV>)
    decreases depth, entries, 0int,
{
    if entries.len() == 0 {
        (fs, Seq::empty())
    } else {
        let (fs1, a1, _e) = visit_v(
            op,
            cfg,
            fs,
            entries[0].1,
            orig_dir.push(entries[0].0),
            dest_dir.push(entries[0].0),
            use_special,
            depth,
        );
        let (fs2, a2) = walk_v(
            op,
            cfg,
            fs1,
            entries.drop_first(),
            orig_dir,
            dest_dir,
            use_special,
            depth,
        );
        (fs2, a1 + a2)
    }
}

/// The values of a list of paths.
pub open spec fn paths_view(s: Seq<FsPath>) -> Seq<Seq<Seq<char>>> {
    Seq::new(s.len(), |i: int| s[i]@)
}

/// One package processed under one operation: its directory is walked
/// into the target area.  A package that cannot be read is passed over,
/// as is any error a walk reports.
pub open spec fn run_one_v(
    op: Op,
    cfg: CfgV,
    fs: NodeV,
    package: Seq<Seq<char>>,
    target: Seq<Seq<char>>,
    depth: nat,
) -> (NodeV, Seq<ActionV>) {
    match lookup_v(fs, package) {
        Some(pnode) => {
            let (f, a, _e) = dir_walk_v(
                op,
                cfg,
                fs,
                pnode,
                package,
                target,
                cfg.special_paths,
                false,
                depth,
            );
            (f, a)
        },
        None => (fs, Seq::empty()),
    }
}

/// A list of packages processed in order under one operation.
pub open spec fn run_list_v(
    op: Op,
    cfg: CfgV,
    fs: NodeV,
    packages: Seq<Seq<Seq<char>>>,
    target: Seq<Seq<char>>,
    depth: nat,
) -> (NodeV, Seq<ActionV>)
    decreases packages.len(),
{
    if packages.len() == 0 {
        (fs, Seq::empty())
    } else {
        let (f1, a1) = run_one_v(op, cfg, fs, packages[0], target, depth);
        let (f2, a2) = run_list_v(op, cfg, f1, packages.drop_first(), target, depth);
        (f2, a1 + a2)
    }
}

/// A list of packages each processed under `first` and then `second`:
/// restow is unstow-then-stow, adopt is adopt-then-stow.
pub open spec fn run_pair_list_v(
    first: Op,
    second: Op,
    cfg: CfgV,
    fs: NodeV,
    packages: Seq<Seq<Seq<char>>>,
    target: Seq<Seq<char>>,
    depth: nat,
) -> (NodeV, Seq<ActionV>)
    decreases packages.len(),
{
    if packages.len() == 0 {
        (fs, Seq::empty())
    } else {
        let (f1, a1) = run_one_v(first, cfg, fs, packages[0], target, depth);
        let (f2, a2) = run_one_v(second, cfg, f1, packages[0], target, depth);
        let (f3, a3) = run_pair_list_v(first, second, cfg, f2, packages.drop_first(), target, depth);
        (f3, a1 + a2 + a3)
    }
}

/// A whole run: the unstow list, then the restow list, then the stow
/// list, then the adopt list.
pub open spec fn run_v(
    cfg: CfgV,
    fs: NodeV,
    unstow: Seq<Seq<Seq<char>>>,
    restow: Seq<Seq<Seq<char>>>,
    stow: Seq<Seq<Seq<char>>>,
    adopt: Seq<Seq<Seq<char>>>,
    target: Seq<Seq<char>>,
    depth: nat,
) -> (NodeV, Seq<ActionV>) {
    let (f1, a1) = run_list_v(Op::Unstow, cfg, fs, unstow, target, depth);
    let (f2, a2) = run_pair_list_v(Op::Unstow, Op::Stow, cfg, f1, restow, target, depth);
    let (f3, a3) = run_list_v(Op::Stow, cfg, f2, stow, target, depth);
    let (f4, a4) = run_pair_list_v(Op::Adopt, Op::Stow, cfg, f3, adopt, target, depth);
    (f4, a1 + a2 + a3 + a4)
}

/// The packages a request list selects: entries with a visible (not
/// dot-prefixed) final name that are directories under the stow area,
/// each as its full path.
pub open spec fn ready_dirs_v(
    stow_dir: Seq<Seq<char>>,
    dirs: Seq<Seq<Seq<char>>>,
    fs: NodeV,
) -> Seq<Seq<Seq<char>>>
    decreases dirs.len(),
{
    if dirs.len() == 0 {
        Seq::empty()
    } else {
        let rest = ready_dirs_v(stow_dir, dirs.drop_first(), fs);
        let p = dirs[0];
        if p.len() > 0 && !(p.last().len() > 0 && p.last()[0] == '.') && (lookup_v(
            fs,
            stow_dir + p,
        ) matches Some(NodeV::Dir { .. })) {
            seq![stow_dir + p] + rest
        } else {
            rest
        }
    }
}

/// The merge engine: the configuration of one run and the four package
/// lists, ready to be driven over a file tree.
pub struct Stower {
    pub stow_dir: FsPath,
    pub target_dir: FsPath,
    pub simulate: bool,
    pub verbose: bool,
    pub special_paths: bool,
    pub security_check: bool,
    pub replace_name: Option<(String, String)>,
    pub stow: Vec<FsPath>,
    pub unstow: Vec<FsPath>,
    pub restow: Vec<FsPath>,
    pub adopt: Vec<FsPath>,
    /// The home directory, as the environment gives it; the library never
    /// reads the environment itself.
    pub home: Option<FsPath>,
    /// The answer destructive-conflict prompts will receive.
    pub policy: ConfirmPolicy,
}

impl Stower {
    /// This engine's configuration as a mathematical value.
    pub open spec fn cfg(&self) -> CfgV {
        CfgV {
            special_paths: self.special_paths,
            security_check: self.security_check,
            replace: match self.replace_name {
                Some(r) => Some((r.0@, r.1@)),
                None => None,
            },
            home: match self.home {
                Some(h) => Some(h@),
                None => None,
            },
            accept: self.policy is AcceptAll,
        }
    }

    /// The answer the confirmation policy gives every prompt.
    pub fn answer(&self) -> (r: bool)
        ensures
            r == self.cfg().accept,
    {
        matches!(self.policy, ConfirmPolicy::AcceptAll)
    }

    /// The keyword step of destination resolution, as [`special_v`]
    /// describes it.
    fn handle_special_paths(
        &self,
        fs: &Fs,
        orig: &Node,
        orig_path: &FsPath,
        destination: &FsPath,
    ) -> (r: Option<FsPath>)
        ensures
            match r {
                Some(p) => special_v(self.cfg(), fs@, orig@, orig_path@, destination@) == Some(p@),
                None => special_v(self.cfg(), fs@, orig@, orig_path@, destination@) is None,
            },
    {
        if !self.special_paths {
            return Some(destination.dup());
        }
        if orig_path.parts.len() == 0 {
            return None;
        }
        let name = &orig_path.parts[orig_path.parts.len() - 1];
        proof {
            assert(name@ == orig_path@.last());
        }
        let home_keyword: String = "@home".to_owned();
        let root_keyword: String = "@root".to_owned();
        if *name == home_keyword {
            match &self.home {
                Some(h) => {
                    proof {
                        assert(h@.skip(0) =~= h@);
                    }
                    match lookup_in(&fs.root, h, 0) {
                        Some(_) => Some(h.dup()),
                        None => None,
                    }
                },
                None => None,
            }
        } else if *name == root_keyword {
            if !self.security_check || is_root_file(orig) {
                Some(FsPath::root())
            } else {
                None
            }
        } else {
            Some(destination.dup())
        }
    }

    /// Full destination resolution, as [`resolve_dest_v`] describes it.
    fn resolve_dest(
        &self,
        fs: &Fs,
        orig: &Node,
        orig_path: &FsPath,
        destination: &FsPath,
        use_special: bool,
    ) -> (r: Result<Option<FsPath>, StowError>)
        ensures
            ({
                let s = resolve_dest_v(
                    self.cfg(),
                    fs@,
                    orig@,
                    orig_path@,
                    destination@,
                    use_special,
                );
                match r {
                    Ok(Some(p)) => s == Ok::<Option<Seq<Seq<char>>>, StowError>(Some(p@)),
                    Ok(None) => s == Ok::<Option<Seq<Seq<char>>>, StowError>(None),
                    Err(e) => s == Err::<Option<Seq<Seq<char>>>, StowError>(e),
                }
            }),
    {
        let resolved: Option<FsPath> = if use_special {
            self.handle_special_paths(fs, orig, orig_path, destination)
        } else {
            Some(destination.dup())
        };
        match resolved {
            None => Ok(None),
            Some(d) => match &self.replace_name {
                Some(rule) => {
                    if !regex_is_valid(rule.0.as_str()) {
                        return Err(StowError::InvalidPattern);
                    }
                    if d.parts.len() == 0 {
                        return Err(StowError::InvalidFileName);
                    }
                    let name = &d.parts[d.parts.len() - 1];
                    proof {
                        assert(name@ == d@.last());
                    }
                    match regex_replace_all(rule.0.as_str(), name.as_str(), rule.1.as_str()) {
                        Some(new_name) => Ok(Some(d.with_last(new_name))),
                        None => {
                            proof {
                                assert(false);
                            }
                            Ok(None)
                        },
                    }
                },
                None => Ok(Some(d)),
            },
        }
    }
}

/// The directory an adopted package file is parked in while the exchange
/// is in flight.
pub fn backup_dir() -> (r: FsPath)
    ensures
        r@ == backup_dir_v(),
{
    let mut parts: Vec<String> = Vec::new();
    parts.push("tmp".to_owned());
    parts.push("rustow-backup".to_owned());
    let r = FsPath { parts };
    proof {
        assert(r@ =~= backup_dir_v());
    }
    r
}

/// The adopt exchange of one pair of plain files, with the outcome of the
/// second move as an input.
///
/// The package's file is first moved aside into the backup area, then the
/// target-side file is moved onto the package path.  When that second
/// move fails, the package file is moved back: the tree is then exactly
/// what it was, so the package never loses its file to a half-done
/// adoption.
pub fn adopt_file_exchange(
    fs: &mut Fs,
    orig_path: &FsPath,
    dest: &FsPath,
    second_move_ok: bool,
    actions: &mut Vec<Action>,
)
    requires
        orig_path@.len() > 0,
        lookup_v(old(fs)@, dest@) matches Some(NodeV::File { .. }),
    ensures
        lookup_v(old(fs)@, dest@) matches Some(dnode) ==> ({
            let (f2, a2) = adopt_exchange_v(old(fs)@, orig_path@, dest@, dnode, second_move_ok);
            final(fs)@ == f2 && acts_view(final(actions)@) == acts_view(old(actions)@) + a2
        }),
        !second_move_ok ==> final(fs)@ == old(fs)@,
{
    proof {
        assert(dest@.skip(0) =~= dest@);
        lemma_acts_view(old(actions)@);
    }
    let bdir = backup_dir();
    let bname = orig_path.parts[orig_path.parts.len() - 1].clone();
    let backup = bdir.child(&bname);
    proof {
        assert(bname@ == orig_path@.last());
    }
    match lookup_in(&fs.root, dest, 0) {
        Some(n) => {
            let dnode = clone_node(n);
            actions.push(Action::CreateDir { destination: backup_dir() });
            actions.push(Action::MoveFile { from: orig_path.dup(), to: backup.dup() });
            if second_move_ok {
                fs.root = set_at(&fs.root, orig_path, 0, dnode);
                fs.root = remove_at(&fs.root, dest, 0);
                actions.push(Action::MoveFile { from: dest.dup(), to: orig_path.dup() });
                actions.push(Action::RemoveFile { destination: backup });
                proof {
                    assert(orig_path@.skip(0) =~= orig_path@);
                    lemma_acts_view(actions@);
                    assert(acts_view(actions@) =~= acts_view(old(actions)@) + adopt_exchange_v(
                        old(fs)@,
                        orig_path@,
                        dest@,
                        node_view(dnode),
                        second_move_ok,
                    ).1);
                }
            } else {
                actions.push(Action::MoveFile { from: backup, to: orig_path.dup() });
                proof {
                    lemma_acts_view(actions@);
                    assert(acts_view(actions@) =~= acts_view(old(actions)@) + adopt_exchange_v(
                        old(fs)@,
                        orig_path@,
                        dest@,
                        node_view(dnode),
                        second_move_ok,
                    ).1);
                }
            }
        },
        None => {
            proof {
                assert(false);
            }
        },
    }
}

impl Stower {
    /// One entry stowed, as [`stow_step_v`] describes.
    fn stow_step(
        &self,
        fs: &mut Fs,
        orig: &Node,
        orig_path: &FsPath,
        dest: &FsPath,
        depth: u64,
        actions: &mut Vec<Action>,
    ) -> (r: Result<(), StowError>)
        ensures
            ({
                let (f2, a2, e2) = stow_step_v(
                    self.cfg(),
                    old(fs)@,
                    orig@,
                    orig_path@,
                    dest@,
                    depth as nat,
                );
                &&& final(fs)@ == f2
                &&& acts_view(final(actions)@) == acts_view(old(actions)@) + a2
                &&& r == (match e2 {
                    Some(e) => Err::<(), StowError>(e),
                    None => Ok::<(), StowError>(()),
                })
            }),
        decreases depth, *orig, 2int,
    {
        proof {
            assert(dest@.skip(0) =~= dest@);
            lemma_acts_view(old(actions)@);
        }
        if matches!(orig, Node::Symlink { .. }) {
            return Ok(());
        }
        let dnode: Option<Node> = match lookup_in(&fs.root, dest, 0) {
            Some(n) => Some(clone_node(n)),
            None => None,
        };
        match dnode {
            Some(Node::Symlink { target }) => {
                match canon(&fs.root, &target, CANON_FUEL) {
                    Some(rpath) => {
                        proof {
                            assert(rpath@.skip(0) =~= rpath@);
                        }
                        let rnode: Option<Node> = match lookup_in(&fs.root, &rpath, 0) {
                            Some(n) => Some(clone_node(n)),
                            None => None,
                        };
                        match rnode {
                            Some(rn) => {
                                if !matches!(rn, Node::Dir { .. }) {
                                    Ok(())
                                } else if rpath.same_as(orig_path) {
                                    Ok(())
                                } else {
                                    fs.root = remove_at(&fs.root, dest, 0);
                                    fs.root = set_at(
                                        &fs.root,
                                        dest,
                                        0,
                                        Node::Dir { root_owned: false, entries: Vec::new() },
                                    );
                                    actions.push(Action::RemoveSymlink { destination: dest.dup() });
                                    actions.push(Action::CreateDir { destination: dest.dup() });
                                    proof {
                                        lemma_acts_view(actions@);
                                        assert(acts_view(actions@) =~= acts_view(old(actions)@)
                                            + stow_step_v(
                                            self.cfg(),
                                            old(fs)@,
                                            orig@,
                                            orig_path@,
                                            dest@,
                                            depth as nat,
                                        ).1.take(2));
                                    }
                                    if depth == 0 {
                                        return Err(StowError::TooDeep);
                                    }
                                    let r1 = self.handle_directory(
                                        fs,
                                        &rn,
                                        &rpath,
                                        dest,
                                        Op::Stow,
                                        false,
                                        false,
                                        depth - 1,
                                        actions,
                                    );
                                    if r1.is_err() {
                                        return r1;
                                    }
                                    self.handle_directory(
                                        fs,
                                        orig,
                                        orig_path,
                                        dest,
                                        Op::Stow,
                                        false,
                                        false,
                                        depth - 1,
                                        actions,
                                    )
                                }
                            },
                            None => Ok(()),
                        }
                    },
                    None => {
                        if self.answer() {
                            fs.root = remove_at(&fs.root, dest, 0);
                            fs.root = set_at(
                                &fs.root,
                                dest,
                                0,
                                Node::Symlink { target: orig_path.dup() },
                            );
                            actions.push(Action::RemoveSymlink { destination: dest.dup() });
                            actions.push(
                                Action::CreateSymlink {
                                    original: orig_path.dup(),
                                    destination: dest.dup(),
                                },
                            );
                            proof {
                                lemma_acts_view(actions@);
                                assert(acts_view(actions@) =~= acts_view(old(actions)@)
                                    + stow_step_v(
                                    self.cfg(),
                                    old(fs)@,
                                    orig@,
                                    orig_path@,
                                    dest@,
                                    depth as nat,
                                ).1);
                            }
                        }
                        Ok(())
                    },
                }
            },
            Some(Node::Dir { .. }) => self.handle_directory(
                fs,
                orig,
                orig_path,
                dest,
                Op::Stow,
                false,
                false,
                depth,
                actions,
            ),
            Some(Node::File { .. }) => {
                if self.answer() {
                    fs.root = remove_at(&fs.root, dest, 0);
                    fs.root = set_at(&fs.root, dest, 0, Node::Symlink { target: orig_path.dup() });
                    actions.push(Action::RemoveFile { destination: dest.dup() });
                    actions.push(
                        Action::CreateSymlink {
                            original: orig_path.dup(),
                            destination: dest.dup(),
                        },
                    );
                    proof {
                        lemma_acts_view(actions@);
                        assert(acts_view(actions@) =~= acts_view(old(actions)@) + stow_step_v(
                            self.cfg(),
                            old(fs)@,
                            orig@,
                            orig_path@,
                            dest@,
                            depth as nat,
                        ).1);
                    }
                }
                Ok(())
            },
            None => {
                proof {
                    assert(dest@.len() > 0);
                }
                let parent = dest.parent();
                proof {
                    assert(parent@.skip(0) =~= parent@);
                }
                match lookup_in(&fs.root, &parent, 0) {
                    Some(Node::Dir { .. }) => {
                        fs.root = set_at(
                            &fs.root,
                            dest,
                            0,
                            Node::Symlink { target: orig_path.dup() },
                        );
                        actions.push(
                            Action::CreateSymlink {
                                original: orig_path.dup(),
                                destination: dest.dup(),
                            },
                        );
                        proof {
                            lemma_acts_view(actions@);
                            assert(acts_view(actions@) =~= acts_view(old(actions)@) + stow_step_v(
                                self.cfg(),
                                old(fs)@,
                                orig@,
                                orig_path@,
                                dest@,
                                depth as nat,
                            ).1);
                        }
                        Ok(())
                    },
                    _ => Err(StowError::MissingParent),
                }
            },
        }
    }

    /// One entry unstowed, as [`unstow_step_v`] describes.
    fn unstow_step(
        &self,
        fs: &mut Fs,
        orig: &Node,
        orig_path: &FsPath,
        dest: &FsPath,
        depth: u64,
        actions: &mut Vec<Action>,
    ) -> (r: Result<(), StowError>)
        ensures
            ({
                let (f2, a2, e2) = unstow_step_v(
                    self.cfg(),
                    old(fs)@,
                    orig@,
                    orig_path@,
                    dest@,
                    depth as nat,
                );
                &&& final(fs)@ == f2
                &&& acts_view(final(actions)@) == acts_view(old(actions)@) + a2
                &&& r == (match e2 {
                    Some(e) => Err::<(), StowError>(e),
                    None => Ok::<(), StowError>(()),
                })
            }),
        decreases depth, *orig, 2int,
    {
        proof {
            assert(dest@.skip(0) =~= dest@);
            lemma_acts_view(old(actions)@);
        }
        if matches!(orig, Node::Symlink { .. }) {
            return Ok(());
        }
        let dnode: Option<Node> = match lookup_in(&fs.root, dest, 0) {
            Some(n) => Some(clone_node(n)),
            None => None,
        };
        match dnode {
            None => Ok(()),
            Some(Node::Symlink { .. }) => {
                fs.root = remove_at(&fs.root, dest, 0);
                actions.push(Action::RemoveSymlink { destination: dest.dup() });
                proof {
                    lemma_acts_view(actions@);
                    assert(acts_view(actions@) =~= acts_view(old(actions)@) + unstow_step_v(
                        self.cfg(),
                        old(fs)@,
                        orig@,
                        orig_path@,
                        dest@,
                        depth as nat,
                    ).1);
                }
                Ok(())
            },
            Some(Node::Dir { .. }) => {
                if matches!(orig, Node::Dir { .. }) {
                    self.handle_directory(
                        fs,
                        orig,
                        orig_path,
                        dest,
                        Op::Unstow,
                        false,
                        true,
                        depth,
                        actions,
                    )
                } else {
                    Ok(())
                }
            },
            Some(Node::File { .. }) => Ok(()),
        }
    }

    /// One entry adopted, as [`adopt_step_v`] describes.
    fn adopt_step(
        &self,
        fs: &mut Fs,
        orig: &Node,
        orig_path: &FsPath,
        dest: &FsPath,
        depth: u64,
        actions: &mut Vec<Action>,
    ) -> (r: Result<(), StowError>)
        requires
            orig_path@.len() > 0,
        ensures
            ({
                let (f2, a2, e2) = adopt_step_v(
                    self.cfg(),
                    old(fs)@,
                    orig@,
                    orig_path@,
                    dest@,
                    depth as nat,
                );
                &&& final(fs)@ == f2
                &&& acts_view(final(actions)@) == acts_view(old(actions)@) + a2
                &&& r == (match e2 {
                    Some(e) => Err::<(), StowError>(e),
                    None => Ok::<(), StowError>(()),
                })
            }),
        decreases depth, *orig, 2int,
    {
        proof {
            assert(dest@.skip(0) =~= dest@);
            lemma_acts_view(old(actions)@);
        }
        let d_is_symlink: bool;
        let d_is_dir: bool;
        let d_is_file: bool;
        match lookup_in(&fs.root, dest, 0) {
            None => {
                return Ok(());
            },
            Some(n) => {
                d_is_symlink = matches!(n, Node::Symlink { .. });
                d_is_dir = matches!(n, Node::Dir { .. });
                d_is_file = matches!(n, Node::File { .. });
            },
        }
        if d_is_symlink {
            return Ok(());
        }
        if matches!(orig, Node::Symlink { .. }) {
            return Ok(());
        }
        if d_is_dir && matches!(orig, Node::Dir { .. }) {
            self.handle_directory(fs, orig, orig_path, dest, Op::Adopt, false, false, depth, actions)
        } else if d_is_file && matches!(orig, Node::File { .. }) {
            adopt_file_exchange(fs, orig_path, dest, true, actions);
            Ok(())
        } else {
            Ok(())
        }
    }

    /// One package entry stowed: destination resolution, then the stow
    /// state machine on the entry's link state, exactly as [`visit_v`]
    /// describes for [`Op::Stow`].
    pub fn stow(
        &self,
        fs: &mut Fs,
        orig: &Node,
        orig_path: &FsPath,
        destination: &FsPath,
        use_special: bool,
        depth: u64,
        actions: &mut Vec<Action>,
    ) -> (r: Result<(), StowError>)
        ensures
            ({
                let (f2, a2, e2) = visit_v(
                    Op::Stow,
                    self.cfg(),
                    old(fs)@,
                    orig@,
                    orig_path@,
                    destination@,
                    use_special,
                    depth as nat,
                );
                &&& final(fs)@ == f2
                &&& acts_view(final(actions)@) == acts_view(old(actions)@) + a2
                &&& r == (match e2 {
                    Some(e) => Err::<(), StowError>(e),
                    None => Ok::<(), StowError>(()),
                })
            }),
    {
        self.visit(Op::Stow, fs, orig, orig_path, destination, use_special, depth, actions)
    }

    /// One package entry unstowed, as [`visit_v`] describes for
    /// [`Op::Unstow`].
    pub fn unstow(
        &self,
        fs: &mut Fs,
        orig: &Node,
        orig_path: &FsPath,
        destination: &FsPath,
        use_special: bool,
        depth: u64,
        actions: &mut Vec<Action>,
    ) -> (r: Result<(), StowError>)
        ensures
            ({
                let (f2, a2, e2) = visit_v(
                    Op::Unstow,
                    self.cfg(),
                    old(fs)@,
                    orig@,
                    orig_path@,
                    destination@,
                    use_special,
                    depth as nat,
                );
                &&& final(fs)@ == f2
                &&& acts_view(final(actions)@) == acts_view(old(actions)@) + a2
                &&& r == (match e2 {
                    Some(e) => Err::<(), StowError>(e),
                    None => Ok::<(), StowError>(()),
                })
            }),
    {
        self.visit(Op::Unstow, fs, orig, orig_path, destination, use_special, depth, actions)
    }

    /// One package entry adopted, as [`visit_v`] describes for
    /// [`Op::Adopt`].
    pub fn adopt(
        &self,
        fs: &mut Fs,
        orig: &Node,
        orig_path: &FsPath,
        destination: &FsPath,
        use_special: bool,
        depth: u64,
        actions: &mut Vec<Action>,
    ) -> (r: Result<(), StowError>)
        ensures
            ({
                let (f2, a2, e2) = visit_v(
                    Op::Adopt,
                    self.cfg(),
                    old(fs)@,
                    orig@,
                    orig_path@,
                    destination@,
                    use_special,
                    depth as nat,
                );
                &&& final(fs)@ == f2
                &&& acts_view(final(actions)@) == acts_view(old(actions)@) + a2
                &&& r == (match e2 {
                    Some(e) => Err::<(), StowError>(e),
                    None => Ok::<(), StowError>(()),
                })
            }),
    {
        self.visit(Op::Adopt, fs, orig, orig_path, destination, use_special, depth, actions)
    }

    /// One entry visited under `op`, as [`visit_v`] describes.
    fn visit(
        &self,
        op: Op,
        fs: &mut Fs,
        orig: &Node,
        orig_path: &FsPath,
        destination: &FsPath,
        use_special: bool,
        depth: u64,
        actions: &mut Vec<Action>,
    ) -> (r: Result<(), StowError>)
        ensures
            ({
                let (f2, a2, e2) = visit_v(
                    op,
                    self.cfg(),
                    old(fs)@,
                    orig@,
                    orig_path@,
                    destination@,
                    use_special,
                    depth as nat,
                );
                &&& final(fs)@ == f2
                &&& acts_view(final(actions)@) == acts_view(old(actions)@) + a2
                &&& r == (match e2 {
                    Some(e) => Err::<(), StowError>(e),
                    None => Ok::<(), StowError>(()),
                })
            }),
        decreases depth, *orig, 3int,
    {
        let dest = match self.resolve_dest(fs, orig, orig_path, destination, use_special) {
            Ok(Some(d)) => d,
            Ok(None) => {
                proof {
                    lemma_acts_view(old(actions)@);
                }
                return Ok(());
            },
            Err(e) => {
                proof {
                    lemma_acts_view(old(actions)@);
                }
                return Err(e);
            },
        };
        if orig_path.parts.len() == 0 {
            proof {
                lemma_acts_view(old(actions)@);
            }
            return Err(StowError::InvalidFileName);
        }
        match op {
            Op::Stow => self.stow_step(fs, orig, orig_path, &dest, depth, actions),
            Op::Unstow => self.unstow_step(fs, orig, orig_path, &dest, depth, actions),
            Op::Adopt => self.adopt_step(fs, orig, orig_path, &dest, depth, actions),
        }
    }

    /// Every entry of the directory `orig` visited under `op`, as
    /// [`dir_walk_v`] describes; with `extra`, the destination directory
    /// is removed afterwards when the walk emptied it.
    /// The entries of one directory visited in order, as [`walk_v`]
    /// describes.
    #[verifier::loop_isolation(false)]
    fn walk_entries(
        &self,
        op: Op,
        fs: &mut Fs,
        entries: &Vec<Entry>,
        orig_path: &FsPath,
        destination: &FsPath,
        use_special: bool,
        depth: u64,
        actions: &mut Vec<Action>,
    )
        ensures
            ({
                let (f2, a2) = walk_v(
                    op,
                    self.cfg(),
                    old(fs)@,
                    entries_view(entries@),
                    orig_path@,
                    destination@,
                    use_special,
                    depth as nat,
                );
                &&& final(fs)@ == f2
                &&& acts_view(final(actions)@) == acts_view(old(actions)@) + a2
            }),
        decreases depth, *entries, 0int,
    {
        let ghost cfg = self.cfg();
        let ghost ev = entries_view(entries@);
        let ghost acts0 = actions@;
        let ghost target = walk_v(
            op,
            cfg,
            fs@,
            ev,
            orig_path@,
            destination@,
            use_special,
            depth as nat,
        );
        proof {
            lemma_entries_view(entries@);
            lemma_acts_view(acts0);
            assert(ev.skip(0) =~= ev);
        }
        let mut j: usize = 0;
        let ghost mut a_done: Seq<ActionV> = Seq::empty();
        proof {
            assert(acts_view(actions@) =~= acts_view(acts0) + a_done);
        }
        while j < entries.len()
            invariant
                j <= entries@.len(),
                acts_view(actions@) == acts_view(acts0) + a_done,
                ({
                    let (ff, aa) = walk_v(
                        op,
                        cfg,
                        fs@,
                        ev.skip(j as int),
                        orig_path@,
                        destination@,
                        use_special,
                        depth as nat,
                    );
                    (ff, a_done + aa) == target
                }),
            decreases entries@.len() - j,
        {
            let name = &entries[j].name;
            let o2 = orig_path.child(name);
            let d2 = destination.child(name);
            let ghost fs_pre = fs@;
            let _ = self.visit(op, fs, &entries[j].node, &o2, &d2, use_special, depth, actions);
            proof {
                let (f1, a1, _e1) = visit_v(
                    op,
                    cfg,
                    fs_pre,
                    ev[j as int].1,
                    orig_path@.push(ev[j as int].0),
                    destination@.push(ev[j as int].0),
                    use_special,
                    depth as nat,
                );
                assert(ev.skip(j as int)[0] == ev[j as int]);
                assert(ev.skip(j as int).drop_first() =~= ev.skip(j as int + 1));
                let (ff, aa) = walk_v(
                    op,
                    cfg,
                    fs@,
                    ev.skip(j as int + 1),
                    orig_path@,
                    destination@,
                    use_special,
                    depth as nat,
                );
                assert((a_done + a1) + aa =~= a_done + (a1 + aa));
                a_done = a_done + a1;
            }
            j = j + 1;
        }
        proof {
            assert(ev.skip(entries@.len() as int) =~= Seq::<(Seq<char>, NodeV)>::empty());
            assert(a_done + Seq::<ActionV>::empty() =~= a_done);
        }
    }

    /// Every entry of the directory `orig` visited under `op`, as
    /// [`dir_walk_v`] describes; with `extra`, the destination directory
    /// is removed afterwards when the walk emptied it.
    pub fn handle_directory(
        &self,
        fs: &mut Fs,
        orig: &Node,
        orig_path: &FsPath,
        destination: &FsPath,
        op: Op,
        use_special: bool,
        extra: bool,
        depth: u64,
        actions: &mut Vec<Action>,
    ) -> (r: Result<(), StowError>)
        ensures
            ({
                let (f2, a2, e2) = dir_walk_v(
                    op,
                    self.cfg(),
                    old(fs)@,
                    orig@,
                    orig_path@,
                    destination@,
                    use_special,
                    extra,
                    depth as nat,
                );
                &&& final(fs)@ == f2
                &&& acts_view(final(actions)@) == acts_view(old(actions)@) + a2
                &&& r == (match e2 {
                    Some(e) => Err::<(), StowError>(e),
                    None => Ok::<(), StowError>(()),
                })
            }),
        decreases depth, *orig, 1int,
    {
        proof {
            lemma_acts_view(old(actions)@);
        }
        if orig_path.parts.len() == 0 {
            return Err(StowError::InvalidDirectoryName);
        }
        match orig {
            Node::Dir { entries, .. } => {
                let ghost cfg = self.cfg();
                let ghost fs0 = fs@;
                let ghost acts0 = actions@;
                let ghost w = walk_v(
                    op,
                    cfg,
                    fs0,
                    entries_view(entries@),
                    orig_path@,
                    destination@,
                    use_special,
                    depth as nat,
                );
                self.walk_entries(op, fs, entries, orig_path, destination, use_special, depth, actions);
                proof {
                    assert(fs@ == w.0);
                    assert(acts_view(actions@) == acts_view(acts0) + w.1);
                }
                if extra {
                    let is_empty_dir: bool = match lookup_in(&fs.root, destination, 0) {
                        Some(Node::Dir { entries: e2, .. }) => {
                            proof {
                                lemma_entries_view(e2@);
                            }
                            e2.len() == 0
                        },
                        _ => false,
                    };
                    proof {
                        assert(destination@.skip(0) =~= destination@);
                    }
                    if is_empty_dir {
                        fs.root = remove_at(&fs.root, destination, 0);
                        let ghost acts_mid = actions@;
                        let rd = Action::RemoveDir { destination: destination.dup() };
                        let ghost rdg = rd;
                        actions.push(rd);
                        proof {
                            assert(fs@ == remove_v(w.0, destination@));
                            lemma_acts_view_push(acts_mid, rdg);
                            assert(rdg@ == ActionV::RemoveDir { destination: destination@ });
                            assert(acts_view(actions@) == (acts_view(acts0) + w.1).push(rdg@));
                            assert((acts_view(acts0) + w.1).push(rdg@) =~= acts_view(acts0)
                                + w.1.push(rdg@));
                            let (f2, a2, _e2) = dir_walk_v(
                                op,
                                cfg,
                                fs0,
                                node_view(*orig),
                                orig_path@,
                                destination@,
                                use_special,
                                extra,
                                depth as nat,
                            );
                            assert(a2 == w.1.push(rdg@));
                            assert(acts_view(actions@) == acts_view(acts0) + a2);
                        }
                    }
                }
                Ok(())
            },
            _ => Err(StowError::NotWalkable),
        }
    }

    /// The packages a request list selects, as [`ready_dirs_v`]
    /// describes: visible names only, joined under the stow area, and
    /// kept only when they are directories there.
    #[verifier::loop_isolation(false)]
    pub fn ready_directories(stow_dir: &FsPath, dirs: &Vec<FsPath>, fs: &Fs) -> (r: Vec<FsPath>)
        ensures
            paths_view(r@) == ready_dirs_v(stow_dir@, paths_view(dirs@), fs@),
    {
        let ghost dv = paths_view(dirs@);
        let mut out: Vec<FsPath> = Vec::new();
        proof {
            assert(dv.skip(0) =~= dv);
            assert(paths_view(out@) + ready_dirs_v(stow_dir@, dv, fs@) =~= ready_dirs_v(
                stow_dir@,
                dv,
                fs@,
            ));
        }
        let mut j: usize = 0;
        while j < dirs.len()
            invariant
                j <= dirs@.len(),
                ready_dirs_v(stow_dir@, dv, fs@) == paths_view(out@) + ready_dirs_v(
                    stow_dir@,
                    dv.skip(j as int),
                    fs@,
                ),
            decreases dirs@.len() - j,
        {
            proof {
                assert(dv.skip(j as int)[0] == dv[j as int]);
                assert(dv.skip(j as int).drop_first() =~= dv.skip(j as int + 1));
            }
            let p = &dirs[j];
            if p.parts.len() > 0 {
                let name = &p.parts[p.parts.len() - 1];
                proof {
                    assert(name@ == p@.last());
                }
                let dotted = name.as_str().unicode_len() > 0 && name.as_str().get_char(0) == '.';
                if !dotted {
                    let full = stow_dir.join(p);
                    proof {
                        assert(full@.skip(0) =~= full@);
                    }
                    match lookup_in(&fs.root, &full, 0) {
                        Some(Node::Dir { .. }) => {
                            let ghost out_pre = out@;
                            out.push(full);
                            proof {
                                assert(paths_view(out@) =~= paths_view(out_pre).push(
                                    stow_dir@ + p@,
                                ));
                                assert(paths_view(out_pre) + (seq![stow_dir@ + p@]
                                    + ready_dirs_v(stow_dir@, dv.skip(j as int + 1), fs@))
                                    =~= paths_view(out@) + ready_dirs_v(
                                    stow_dir@,
                                    dv.skip(j as int + 1),
                                    fs@,
                                ));
                            }
                        },
                        _ => {},
                    }
                }
            }
            j = j + 1;
        }
        proof {
            assert(dv.skip(dirs@.len() as int) =~= Seq::<Seq<Seq<char>>>::empty());
            assert(paths_view(out@) + Seq::<Seq<Seq<char>>>::empty() =~= paths_view(out@));
        }
        out
    }

    /// An engine for the request `args`, against the tree `fs`.
    ///
    /// Construction fails when either root is not an existing directory,
    /// or when a name-rewrite pattern is given that does not compile; no
    /// entry is ever visited with an invalid configuration.  `home` is
    /// the home directory as the caller's environment gives it, and
    /// `policy` the answer prompts will receive.
    pub fn new(args: Args, fs: &Fs, home: Option<FsPath>, policy: ConfirmPolicy) -> (r: Result<
        Stower,
        StowError,
    >)
        requires
            args.replace_name@.len() != 1,
        ensures
            ({
                let roots_ok = (lookup_v(fs@, args.stow_dir@) matches Some(NodeV::Dir { .. })) && (
                lookup_v(fs@, args.target_dir@) matches Some(NodeV::Dir { .. }));
                let rule_ok = args.replace_name@.len() == 0 || regex_valid(
                    args.replace_name@[0]@,
                );
                match r {
                    Ok(s) => roots_ok && rule_ok && s.stow_dir@ == args.stow_dir@
                        && s.target_dir@ == args.target_dir@ && s.simulate == args.simulate
                        && s.verbose == args.verbose && s.special_paths == !args.no_special_paths
                        && s.security_check == !args.no_security_check && (args.replace_name@.len()
                        == 0 ==> s.replace_name is None) && (args.replace_name@.len() >= 2 ==> (
                    s.replace_name matches Some(rr) && rr.0@ == args.replace_name@[0]@ && rr.1@
                        == args.replace_name@[1]@)) && paths_view(s.stow@) == ready_dirs_v(
                        args.stow_dir@,
                        paths_view(args.stow@),
                        fs@,
                    ) && paths_view(s.unstow@) == ready_dirs_v(
                        args.stow_dir@,
                        paths_view(args.unstow@),
                        fs@,
                    ) && paths_view(s.restow@) == ready_dirs_v(
                        args.stow_dir@,
                        paths_view(args.restow@),
                        fs@,
                    ) && paths_view(s.adopt@) == ready_dirs_v(
                        args.stow_dir@,
                        paths_view(args.adopt@),
                        fs@,
                    ) && s.home == home && s.policy == policy,
                    Err(e) => !(roots_ok && rule_ok) && e == (if !roots_ok {
                        StowError::NotADirectory
                    } else {
                        StowError::InvalidPattern
                    }),
                }
            }),
    {
        proof {
            assert(args.stow_dir@.skip(0) =~= args.stow_dir@);
            assert(args.target_dir@.skip(0) =~= args.target_dir@);
        }
        let stow_root_ok = matches!(
            lookup_in(&fs.root, &args.stow_dir, 0),
            Some(Node::Dir { .. })
        );
        let target_root_ok = matches!(
            lookup_in(&fs.root, &args.target_dir, 0),
            Some(Node::Dir { .. })
        );
        if !stow_root_ok || !target_root_ok {
            return Err(StowError::NotADirectory);
        }
        let replace_name: Option<(String, String)> = if args.replace_name.len() == 0 {
            None
        } else {
            if !regex_is_valid(args.replace_name[0].as_str()) {
                return Err(StowError::InvalidPattern);
            }
            Some((args.replace_name[0].clone(), args.replace_name[1].clone()))
        };
        let stow = Self::ready_directories(&args.stow_dir, &args.stow, fs);
        let unstow = Self::ready_directories(&args.stow_dir, &args.unstow, fs);
        let restow = Self::ready_directories(&args.stow_dir, &args.restow, fs);
        let adopt = Self::ready_directories(&args.stow_dir, &args.adopt, fs);
        Ok(
            Stower {
                stow_dir: args.stow_dir,
                target_dir: args.target_dir,
                simulate: args.simulate,
                verbose: args.verbose,
                special_paths: !args.no_special_paths,
                security_check: !args.no_security_check,
                replace_name,
                stow,
                unstow,
                restow,
                adopt,
                home,
                policy,
            },
        )
    }

    /// One package processed under one operation, as [`run_one_v`]
    /// describes.
    fn run_one(&self, op: Op, fs: &mut Fs, package: &FsPath, actions: &mut Vec<Action>)
        ensures
            ({
                let (f2, a2) = run_one_v(
                    op,
                    self.cfg(),
                    old(fs)@,
                    package@,
                    self.target_dir@,
                    MAX_MERGE_DEPTH as nat,
                );
                &&& final(fs)@ == f2
                &&& acts_view(final(actions)@) == acts_view(old(actions)@) + a2
            }),
    {
        proof {
            assert(package@.skip(0) =~= package@);
            lemma_acts_view(old(actions)@);
        }
        let pnode: Option<Node> = match lookup_in(&fs.root, package, 0) {
            Some(n) => Some(clone_node(n)),
            None => None,
        };
        match pnode {
            Some(n) => {
                let _ = self.handle_directory(
                    fs,
                    &n,
                    package,
                    &self.target_dir,
                    op,
                    self.special_paths,
                    false,
                    MAX_MERGE_DEPTH,
                    actions,
                );
            },
            None => {
                proof {
                    assert(acts_view(actions@) + Seq::<ActionV>::empty() =~= acts_view(actions@));
                }
            },
        }
    }

    /// A list of packages processed in order under one operation, as
    /// [`run_list_v`] describes.
    #[verifier::loop_isolation(false)]
    fn run_list(&self, op: Op, fs: &mut Fs, packages: &Vec<FsPath>, actions: &mut Vec<Action>)
        ensures
            ({
                let (f2, a2) = run_list_v(
                    op,
                    self.cfg(),
                    old(fs)@,
                    paths_view(packages@),
                    self.target_dir@,
                    MAX_MERGE_DEPTH as nat,
                );
                &&& final(fs)@ == f2
                &&& acts_view(final(actions)@) == acts_view(old(actions)@) + a2
            }),
    {
        let ghost cfg = self.cfg();
        let ghost pv = paths_view(packages@);
        let ghost acts0 = actions@;
        let ghost target = run_list_v(
            op,
            cfg,
            fs@,
            pv,
            self.target_dir@,
            MAX_MERGE_DEPTH as nat,
        );
        proof {
            assert(pv.skip(0) =~= pv);
        }
        let mut j: usize = 0;
        let ghost mut a_done: Seq<ActionV> = Seq::empty();
        proof {
            assert(acts_view(actions@) =~= acts_view(acts0) + a_done);
        }
        while j < packages.len()
            invariant
                j <= packages@.len(),
                acts_view(actions@) == acts_view(acts0) + a_done,
                ({
                    let (ff, aa) = run_list_v(
                        op,
                        cfg,
                        fs@,
                        pv.skip(j as int),
                        self.target_dir@,
                        MAX_MERGE_DEPTH as nat,
                    );
                    (ff, a_done + aa) == target
                }),
            decreases packages@.len() - j,
        {
            let ghost fs_pre = fs@;
            self.run_one(op, fs, &packages[j], actions);
            proof {
                let (f1, a1) = run_one_v(
                    op,
                    cfg,
                    fs_pre,
                    pv[j as int],
                    self.target_dir@,
                    MAX_MERGE_DEPTH as nat,
                );
                assert(pv.skip(j as int)[0] == pv[j as int]);
                assert(pv.skip(j as int).drop_first() =~= pv.skip(j as int + 1));
                let (ff, aa) = run_list_v(
                    op,
                    cfg,
                    fs@,
                    pv.skip(j as int + 1),
                    self.target_dir@,
                    MAX_MERGE_DEPTH as nat,
                );
                assert((a_done + a1) + aa =~= a_done + (a1 + aa));
                a_done = a_done + a1;
            }
            j = j + 1;
        }
        proof {
            assert(pv.skip(packages@.len() as int) =~= Seq::<Seq<Seq<char>>>::empty());
            assert(a_done + Seq::<ActionV>::empty() =~= a_done);
        }
    }

    /// A list of packages each processed under `first` and then
    /// `second`, as [`run_pair_list_v`] describes.
    #[verifier::loop_isolation(false)]
    #[verifier::rlimit(60)]
    fn run_pairs(
        &self,
        first: Op,
        second: Op,
        fs: &mut Fs,
        packages: &Vec<FsPath>,
        actions: &mut Vec<Action>,
    )
        ensures
            ({
                let (f2, a2) = run_pair_list_v(
                    first,
                    second,
                    self.cfg(),
                    old(fs)@,
                    paths_view(packages@),
                    self.target_dir@,
                    MAX_MERGE_DEPTH as nat,
                );
                &&& final(fs)@ == f2
                &&& acts_view(final(actions)@) == acts_view(old(actions)@) + a2
            }),
    {
        let ghost cfg = self.cfg();
        let ghost pv = paths_view(packages@);
        let ghost acts0 = actions@;
        let ghost target = run_pair_list_v(
            first,
            second,
            cfg,
            fs@,
            pv,
            self.target_dir@,
            MAX_MERGE_DEPTH as nat,
        );
        proof {
            assert(pv.skip(0) =~= pv);
        }
        let mut j: usize = 0;
        let ghost mut a_done: Seq<ActionV> = Seq::empty();
        proof {
            assert(acts_view(actions@) =~= acts_view(acts0) + a_done);
        }
        while j < packages.len()
            invariant
                j <= packages@.len(),
                acts_view(actions@) == acts_view(acts0) + a_done,
                ({
                    let (ff, aa) = run_pair_list_v(
                        first,
                        second,
                        cfg,
                        fs@,
                        pv.skip(j as int),
                        self.target_dir@,
                        MAX_MERGE_DEPTH as nat,
                    );
                    (ff, a_done + aa) == target
                }),
            decreases packages@.len() - j,
        {
            let ghost fs_pre = fs@;
            self.run_one(first, fs, &packages[j], actions);
            let ghost fs_mid = fs@;
            self.run_one(second, fs, &packages[j], actions);
            proof {
                let (f1, a1) = run_one_v(
                    first,
                    cfg,
                    fs_pre,
                    pv[j as int],
                    self.target_dir@,
                    MAX_MERGE_DEPTH as nat,
                );
                let (f2, a2) = run_one_v(
                    second,
                    cfg,
                    fs_mid,
                    pv[j as int],
                    self.target_dir@,
                    MAX_MERGE_DEPTH as nat,
                );
                assert(pv.skip(j as int)[0] == pv[j as int]);
                assert(pv.skip(j as int).drop_first() =~= pv.skip(j as int + 1));
                let (ff, aa) = run_pair_list_v(
                    first,
                    second,
                    cfg,
                    fs@,
                    pv.skip(j as int + 1),
                    self.target_dir@,
                    MAX_MERGE_DEPTH as nat,
                );
                assert(((a_done + a1) + a2) + aa =~= a_done + ((a1 + a2) + aa));
                a_done = (a_done + a1) + a2;
            }
            j = j + 1;
        }
        proof {
            assert(pv.skip(packages@.len() as int) =~= Seq::<Seq<Seq<char>>>::empty());
            assert(a_done + Seq::<ActionV>::empty() =~= a_done);
        }
    }

    /// One whole run over the tree `fs`: the unstow list, the restow
    /// list, the stow list, then the adopt list, as [`run_v`] describes.
    /// The returned actions are the mutations the run decided on, in
    /// order.
    pub fn run(&self, fs: &mut Fs) -> (actions: Vec<Action>)
        ensures
            ({
                let (f2, a2) = run_v(
                    self.cfg(),
                    old(fs)@,
                    paths_view(self.unstow@),
                    paths_view(self.restow@),
                    paths_view(self.stow@),
                    paths_view(self.adopt@),
                    self.target_dir@,
                    MAX_MERGE_DEPTH as nat,
                );
                &&& final(fs)@ == f2
                &&& acts_view(actions@) == a2
            }),
    {
        let mut actions: Vec<Action> = Vec::new();
        proof {
            assert(acts_view(actions@) =~= Seq::<ActionV>::empty());
        }
        let ghost cfg = self.cfg();
        let ghost fs0 = fs@;
        self.run_list(Op::Unstow, fs, &self.unstow, &mut actions);
        self.run_pairs(Op::Unstow, Op::Stow, fs, &self.restow, &mut actions);
        self.run_list(Op::Stow, fs, &self.stow, &mut actions);
        self.run_pairs(Op::Adopt, Op::Stow, fs, &self.adopt, &mut actions);
        proof {
            let (f1, a1) = run_list_v(
                Op::Unstow,
                cfg,
                fs0,
                paths_view(self.unstow@),
                self.target_dir@,
                MAX_MERGE_DEPTH as nat,
            );
            let (f2, a2) = run_pair_list_v(
                Op::Unstow,
                Op::Stow,
                cfg,
                f1,
                paths_view(self.restow@),
                self.target_dir@,
                MAX_MERGE_DEPTH as nat,
            );
            let (f3, a3) = run_list_v(
                Op::Stow,
                cfg,
                f2,
                paths_view(self.stow@),
                self.target_dir@,
                MAX_MERGE_DEPTH as nat,
            );
            let (f4, a4) = run_pair_list_v(
                Op::Adopt,
                Op::Stow,
                cfg,
                f3,
                paths_view(self.adopt@),
                self.target_dir@,
                MAX_MERGE_DEPTH as nat,
            );
            assert(acts_view(actions@) == ((Seq::<ActionV>::empty() + a1) + a2) + a3 + a4);
            assert(((Seq::<ActionV>::empty() + a1) + a2) + a3 + a4 =~= a1 + a2 + a3 + a4);
        }
        actions
    }
}

} // verus!
