//! The engine's laws exercised on concrete values, the destination
//! resolver, the security gate, the adopt exchange, and the smaller
//! helpers.

use rustow::action::Action;
use rustow::fsmodel::{clone_node, is_root_file, lookup_in, Entry, Fs, Node};
use rustow::get_name;
use rustow::options::Options;
use rustow::path::FsPath;
use rustow::cmd::Args;
use rustow::stower::{adopt_file_exchange, ConfirmPolicy, Stower, StowError};

fn p(parts: &[&str]) -> FsPath {
    FsPath { parts: parts.iter().map(|s| s.to_string()).collect() }
}

fn file(content: u64) -> Node {
    Node::File { root_owned: false, content }
}

fn root_file(content: u64) -> Node {
    Node::File { root_owned: true, content }
}

fn dir(children: Vec<(&str, Node)>) -> Node {
    Node::Dir {
        root_owned: false,
        entries: children
            .into_iter()
            .map(|(name, node)| Entry { name: name.to_string(), node })
            .collect(),
    }
}

fn engine(fs_target: FsPath) -> Stower {
    Stower {
        stow_dir: p(&["stow_dir"]),
        target_dir: fs_target,
        simulate: false,
        verbose: false,
        special_paths: false,
        security_check: true,
        replace_name: None,
        stow: Vec::new(),
        unstow: Vec::new(),
        restow: Vec::new(),
        adopt: Vec::new(),
        home: None,
        policy: ConfirmPolicy::DeclineAll,
    }
}

fn node_at(fs: &Fs, path: &[&str]) -> Node {
    clone_node(lookup_in(&fs.root, &p(path), 0).expect("node should exist"))
}

/// Stowing the same entry twice: the second pass changes nothing and
/// records nothing.
#[test]
fn stow_twice_changes_nothing() {
    let mut fs = Fs {
        root: dir(vec![
            ("stow_dir", dir(vec![("pkg", dir(vec![("conf", file(7))]))])),
            ("target", dir(vec![])),
        ]),
    };
    let eng = engine(p(&["target"]));
    let orig = node_at(&fs, &["stow_dir", "pkg", "conf"]);
    let opath = p(&["stow_dir", "pkg", "conf"]);
    let dest = p(&["target", "conf"]);

    let mut first = Vec::new();
    eng.stow(&mut fs, &orig, &opath, &dest, false, 64, &mut first).unwrap();
    let snapshot = Fs { root: clone_node(&fs.root) };

    let mut second = Vec::new();
    eng.stow(&mut fs, &orig, &opath, &dest, false, 64, &mut second).unwrap();

    assert_eq!(first.len(), 1);
    assert!(second.is_empty());
    assert_eq!(fs, snapshot);
}

/// Unstow right after stow: the target area is back to its pre-stow
/// state.
#[test]
fn stow_then_unstow_round_trip() {
    let mut fs = Fs {
        root: dir(vec![
            ("stow_dir", dir(vec![("pkg", dir(vec![("conf", file(7))]))])),
            ("target", dir(vec![("bystander", file(9))])),
        ]),
    };
    let before = Fs { root: clone_node(&fs.root) };
    let eng = engine(p(&["target"]));
    let orig = node_at(&fs, &["stow_dir", "pkg", "conf"]);
    let opath = p(&["stow_dir", "pkg", "conf"]);
    let dest = p(&["target", "conf"]);

    let mut actions = Vec::new();
    eng.stow(&mut fs, &orig, &opath, &dest, false, 64, &mut actions).unwrap();
    assert_ne!(fs, before);
    eng.unstow(&mut fs, &orig, &opath, &dest, false, 64, &mut actions).unwrap();

    assert_eq!(fs, before);
    assert_eq!(
        actions,
        vec![
            Action::CreateSymlink { original: opath.dup(), destination: dest.dup() },
            Action::RemoveSymlink { destination: dest.dup() },
        ]
    );
}

/// Two packages contributing entries under one directory name end up
/// merged: a real directory with a symlink to each side's file.
#[test]
fn stow_merges_two_packages() {
    let mut fs = Fs {
        root: dir(vec![
            (
                "stow_dir",
                dir(vec![
                    ("a", dir(vec![("shared", dir(vec![("from_a", file(1))]))])),
                    ("b", dir(vec![("shared", dir(vec![("from_b", file(2))]))])),
                ]),
            ),
            ("target", dir(vec![])),
        ]),
    };
    let eng = engine(p(&["target"]));
    let dest = p(&["target", "shared"]);
    let mut actions = Vec::new();

    let a = node_at(&fs, &["stow_dir", "a", "shared"]);
    eng.stow(&mut fs, &a, &p(&["stow_dir", "a", "shared"]), &dest, false, 64, &mut actions)
        .unwrap();
    let b = node_at(&fs, &["stow_dir", "b", "shared"]);
    eng.stow(&mut fs, &b, &p(&["stow_dir", "b", "shared"]), &dest, false, 64, &mut actions)
        .unwrap();

    let merged = node_at(&fs, &["target", "shared"]);
    match merged {
        Node::Dir { entries, .. } => {
            assert_eq!(entries.len(), 2);
            assert_eq!(entries[0].name, "from_a");
            assert_eq!(
                entries[0].node,
                Node::Symlink { target: p(&["stow_dir", "a", "shared", "from_a"]) }
            );
            assert_eq!(entries[1].name, "from_b");
            assert_eq!(
                entries[1].node,
                Node::Symlink { target: p(&["stow_dir", "b", "shared", "from_b"]) }
            );
        }
        _ => panic!("destination should have become a real directory"),
    }
}

/// The security gate refuses `@root` for a package entry that is not
/// wholly root-owned: nothing is mutated, nothing recorded.
#[test]
fn security_gate_refuses_unowned_root_entry() {
    let mut fs = Fs {
        root: dir(vec![(
            "stow_dir",
            dir(vec![("pkg", dir(vec![("@root", dir(vec![("etcfile", file(1))]))]))]),
        )]),
    };
    let before = Fs { root: clone_node(&fs.root) };
    let mut eng = engine(p(&[]));
    eng.special_paths = true;
    let orig = node_at(&fs, &["stow_dir", "pkg", "@root"]);
    let mut actions = Vec::new();

    eng.stow(
        &mut fs,
        &orig,
        &p(&["stow_dir", "pkg", "@root"]),
        &p(&["@root"]),
        true,
        64,
        &mut actions,
    )
    .unwrap();

    assert!(actions.is_empty());
    assert_eq!(fs, before);
}

/// With the security check disabled the same entry resolves to the
/// filesystem root and is stowed there.
#[test]
fn security_gate_disabled_allows_root_entry() {
    let mut fs = Fs {
        root: dir(vec![(
            "stow_dir",
            dir(vec![("pkg", dir(vec![("@root", dir(vec![("etcfile", file(1))]))]))]),
        )]),
    };
    let mut eng = engine(p(&[]));
    eng.special_paths = true;
    eng.security_check = false;
    let orig = node_at(&fs, &["stow_dir", "pkg", "@root"]);
    let mut actions = Vec::new();

    eng.stow(
        &mut fs,
        &orig,
        &p(&["stow_dir", "pkg", "@root"]),
        &p(&["@root"]),
        true,
        64,
        &mut actions,
    )
    .unwrap();

    assert_eq!(
        node_at(&fs, &["etcfile"]),
        Node::Symlink { target: p(&["stow_dir", "pkg", "@root", "etcfile"]) }
    );
}

/// A fully root-owned `@root` entry is accepted even with security
/// enabled.
#[test]
fn security_gate_accepts_root_owned_entry() {
    let owned = Node::Dir {
        root_owned: true,
        entries: vec![Entry { name: "etcfile".to_string(), node: root_file(1) }],
    };
    let mut fs = Fs {
        root: dir(vec![(
            "stow_dir",
            dir(vec![("pkg", Node::Dir {
                root_owned: false,
                entries: vec![Entry { name: "@root".to_string(), node: owned }],
            })]),
        )]),
    };
    let mut eng = engine(p(&[]));
    eng.special_paths = true;
    let orig = node_at(&fs, &["stow_dir", "pkg", "@root"]);
    assert!(is_root_file(&orig));
    let mut actions = Vec::new();

    eng.stow(
        &mut fs,
        &orig,
        &p(&["stow_dir", "pkg", "@root"]),
        &p(&["@root"]),
        true,
        64,
        &mut actions,
    )
    .unwrap();

    assert_eq!(
        node_at(&fs, &["etcfile"]),
        Node::Symlink { target: p(&["stow_dir", "pkg", "@root", "etcfile"]) }
    );
}

/// The `@home` keyword redirects to the configured home directory.
#[test]
fn home_keyword_redirects_to_home() {
    let mut fs = Fs {
        root: dir(vec![
            ("home", dir(vec![("user", dir(vec![]))])),
            ("stow_dir", dir(vec![("pkg", dir(vec![("@home", dir(vec![("rc", file(1))]))]))])),
        ]),
    };
    let mut eng = engine(p(&[]));
    eng.special_paths = true;
    eng.home = Some(p(&["home", "user"]));
    let orig = node_at(&fs, &["stow_dir", "pkg", "@home"]);
    let mut actions = Vec::new();

    eng.stow(
        &mut fs,
        &orig,
        &p(&["stow_dir", "pkg", "@home"]),
        &p(&["@home"]),
        true,
        64,
        &mut actions,
    )
    .unwrap();

    assert_eq!(
        node_at(&fs, &["home", "user", "rc"]),
        Node::Symlink { target: p(&["stow_dir", "pkg", "@home", "rc"]) }
    );
}

/// Without a home directory the `@home` branch is skipped.
#[test]
fn home_keyword_without_home_skips() {
    let mut fs = Fs {
        root: dir(vec![(
            "stow_dir",
            dir(vec![("pkg", dir(vec![("@home", dir(vec![("rc", file(1))]))]))]),
        )]),
    };
    let before = Fs { root: clone_node(&fs.root) };
    let mut eng = engine(p(&[]));
    eng.special_paths = true;
    let orig = node_at(&fs, &["stow_dir", "pkg", "@home"]);
    let mut actions = Vec::new();

    eng.stow(
        &mut fs,
        &orig,
        &p(&["stow_dir", "pkg", "@home"]),
        &p(&["@home"]),
        true,
        64,
        &mut actions,
    )
    .unwrap();

    assert!(actions.is_empty());
    assert_eq!(fs, before);
}

/// The name-rewrite rule rewrites the destination's final component with
/// a real pattern substitution, capture groups included.
#[test]
fn replace_name_rewrites_destination() {
    let mut fs = Fs {
        root: dir(vec![
            ("stow_dir", dir(vec![("pkg", dir(vec![("conf-old", file(7))]))])),
            ("target", dir(vec![])),
        ]),
    };
    let mut eng = engine(p(&["target"]));
    eng.replace_name = Some(("old".to_string(), "new".to_string()));
    let orig = node_at(&fs, &["stow_dir", "pkg", "conf-old"]);
    let mut actions = Vec::new();

    eng.stow(
        &mut fs,
        &orig,
        &p(&["stow_dir", "pkg", "conf-old"]),
        &p(&["target", "conf-old"]),
        false,
        64,
        &mut actions,
    )
    .unwrap();

    assert_eq!(
        node_at(&fs, &["target", "conf-new"]),
        Node::Symlink { target: p(&["stow_dir", "pkg", "conf-old"]) }
    );
    assert!(lookup_in(&fs.root, &p(&["target", "conf-old"]), 0).is_none());
}

/// A capture-group rewrite goes through the real pattern engine.
#[test]
fn replace_name_expands_capture_groups() {
    let mut fs = Fs {
        root: dir(vec![
            ("stow_dir", dir(vec![("pkg", dir(vec![("ab", file(7))]))])),
            ("target", dir(vec![])),
        ]),
    };
    let mut eng = engine(p(&["target"]));
    eng.replace_name = Some(("(a)(b)".to_string(), "$2$1".to_string()));
    let orig = node_at(&fs, &["stow_dir", "pkg", "ab"]);
    let mut actions = Vec::new();

    eng.stow(
        &mut fs,
        &orig,
        &p(&["stow_dir", "pkg", "ab"]),
        &p(&["target", "ab"]),
        false,
        64,
        &mut actions,
    )
    .unwrap();

    assert_eq!(
        node_at(&fs, &["target", "ba"]),
        Node::Symlink { target: p(&["stow_dir", "pkg", "ab"]) }
    );
}

/// A real file in the way: declined, it stays; accepted, it is replaced
/// by the symlink.
#[test]
fn conflicting_file_follows_the_prompt_policy() {
    let mut fs = Fs {
        root: dir(vec![
            ("stow_dir", dir(vec![("pkg", dir(vec![("conf", file(7))]))])),
            ("target", dir(vec![("conf", file(8))])),
        ]),
    };
    let before = Fs { root: clone_node(&fs.root) };
    let orig = node_at(&fs, &["stow_dir", "pkg", "conf"]);
    let opath = p(&["stow_dir", "pkg", "conf"]);
    let dest = p(&["target", "conf"]);
    let mut actions = Vec::new();

    let decline = engine(p(&["target"]));
    decline.stow(&mut fs, &orig, &opath, &dest, false, 64, &mut actions).unwrap();
    assert_eq!(fs, before);
    assert!(actions.is_empty());

    let mut accept = engine(p(&["target"]));
    accept.policy = ConfirmPolicy::AcceptAll;
    accept.stow(&mut fs, &orig, &opath, &dest, false, 64, &mut actions).unwrap();
    assert_eq!(node_at(&fs, &["target", "conf"]), Node::Symlink { target: opath.dup() });
    assert_eq!(actions.len(), 2);
}

/// A broken symlink in the way: declined, it stays; accepted, it is
/// replaced by a fresh symlink.
#[test]
fn broken_symlink_follows_the_prompt_policy() {
    let mut fs = Fs {
        root: dir(vec![
            ("stow_dir", dir(vec![("pkg", dir(vec![("conf", file(7))]))])),
            ("target", dir(vec![("conf", Node::Symlink { target: p(&["gone"]) })])),
        ]),
    };
    let before = Fs { root: clone_node(&fs.root) };
    let orig = node_at(&fs, &["stow_dir", "pkg", "conf"]);
    let opath = p(&["stow_dir", "pkg", "conf"]);
    let dest = p(&["target", "conf"]);
    let mut actions = Vec::new();

    let decline = engine(p(&["target"]));
    decline.stow(&mut fs, &orig, &opath, &dest, false, 64, &mut actions).unwrap();
    assert_eq!(fs, before);
    assert!(actions.is_empty());

    let mut accept = engine(p(&["target"]));
    accept.policy = ConfirmPolicy::AcceptAll;
    accept.stow(&mut fs, &orig, &opath, &dest, false, 64, &mut actions).unwrap();
    assert_eq!(node_at(&fs, &["target", "conf"]), Node::Symlink { target: opath.dup() });
}

/// Adopt pulls the target's file into the package, replacing the
/// package's copy.
#[test]
fn adopt_pulls_target_file_into_package() {
    let mut fs = Fs {
        root: dir(vec![
            ("stow_dir", dir(vec![("pkg", dir(vec![("conf", file(7))]))])),
            ("target", dir(vec![("conf", file(42))])),
        ]),
    };
    let eng = engine(p(&["target"]));
    let orig = node_at(&fs, &["stow_dir", "pkg", "conf"]);
    let mut actions = Vec::new();

    eng.adopt(
        &mut fs,
        &orig,
        &p(&["stow_dir", "pkg", "conf"]),
        &p(&["target", "conf"]),
        false,
        64,
        &mut actions,
    )
    .unwrap();

    assert_eq!(node_at(&fs, &["stow_dir", "pkg", "conf"]), file(42));
    assert!(lookup_in(&fs.root, &p(&["target", "conf"]), 0).is_none());
}

/// Adopt safety: when the second move fails, the exchange leaves the
/// tree exactly as it was — the package file is restored byte for byte.
#[test]
fn adopt_failed_move_restores_package_file() {
    let mut fs = Fs {
        root: dir(vec![
            ("stow_dir", dir(vec![("pkg", dir(vec![("conf", file(7))]))])),
            ("target", dir(vec![("conf", file(42))])),
        ]),
    };
    let before = Fs { root: clone_node(&fs.root) };
    let mut actions = Vec::new();

    adopt_file_exchange(
        &mut fs,
        &p(&["stow_dir", "pkg", "conf"]),
        &p(&["target", "conf"]),
        false,
        &mut actions,
    );

    assert_eq!(fs, before);
    assert_eq!(node_at(&fs, &["stow_dir", "pkg", "conf"]), file(7));
    assert_eq!(actions.len(), 3);
    assert_eq!(
        actions[2],
        Action::MoveFile {
            from: p(&["tmp", "rustow-backup", "conf"]),
            to: p(&["stow_dir", "pkg", "conf"]),
        }
    );
}

/// The stow area of the sample scenario stowed into an empty target
/// area: the lone file becomes a symlink and the shared directory a real
/// directory with one symlink per package.
#[test]
fn sample_scenario_into_empty_target() {
    let mut fs = Fs {
        root: dir(vec![
            (
                "stow_dir",
                dir(vec![
                    (
                        "stow1",
                        dir(vec![
                            (
                                "existing_directory",
                                dir(vec![("file_in_existing_directory", file(1))]),
                            ),
                            ("file_in_target_root", file(2)),
                        ]),
                    ),
                    (
                        "stow2",
                        dir(vec![(
                            "existing_directory",
                            dir(vec![("another_file_in_existing_directory", file(3))]),
                        )]),
                    ),
                ]),
            ),
            ("target", dir(vec![])),
        ]),
    };
    let eng = engine(p(&["target"]));
    let mut actions = Vec::new();
    for pkg in ["stow1", "stow2"] {
        let path = FsPath { parts: vec!["stow_dir".to_string(), pkg.to_string()] };
        let pnode = clone_node(lookup_in(&fs.root, &path, 0).unwrap());
        eng.handle_directory(
            &mut fs,
            &pnode,
            &path,
            &p(&["target"]),
            rustow::stower::Op::Stow,
            false,
            false,
            64,
            &mut actions,
        )
        .unwrap();
    }

    assert_eq!(
        node_at(&fs, &["target", "file_in_target_root"]),
        Node::Symlink { target: p(&["stow_dir", "stow1", "file_in_target_root"]) }
    );
    match node_at(&fs, &["target", "existing_directory"]) {
        Node::Dir { entries, .. } => {
            assert_eq!(entries.len(), 2);
            assert_eq!(
                entries[0].node,
                Node::Symlink {
                    target: p(&[
                        "stow_dir",
                        "stow1",
                        "existing_directory",
                        "file_in_existing_directory",
                    ]),
                }
            );
            assert_eq!(
                entries[1].node,
                Node::Symlink {
                    target: p(&[
                        "stow_dir",
                        "stow2",
                        "existing_directory",
                        "another_file_in_existing_directory",
                    ]),
                }
            );
        }
        _ => panic!("the shared directory should be a real directory"),
    }
}

/// Construction validates the roots and the rewrite pattern, filters the
/// package lists, and a run drives the whole request.
#[test]
fn new_validates_and_run_stows() {
    let mut fs = Fs {
        root: dir(vec![
            (
                "stow_dir",
                dir(vec![
                    ("pkg", dir(vec![("conf", file(7))])),
                    (".hidden", dir(vec![])),
                    ("loose", file(1)),
                ]),
            ),
            ("target", dir(vec![])),
        ]),
    };
    let args = Args {
        stow_dir: p(&["stow_dir"]),
        target_dir: p(&["target"]),
        verbose: false,
        simulate: false,
        no_special_paths: false,
        no_security_check: false,
        replace_name: Vec::new(),
        stow: vec![p(&["pkg"]), p(&[".hidden"]), p(&["loose"]), p(&["absent"])],
        unstow: Vec::new(),
        restow: Vec::new(),
        adopt: Vec::new(),
    };
    let eng = Stower::new(args, &fs, None, ConfirmPolicy::DeclineAll).unwrap();
    assert_eq!(eng.stow, vec![p(&["stow_dir", "pkg"])]);

    let actions = eng.run(&mut fs);
    assert_eq!(actions.len(), 1);
    assert_eq!(
        node_at(&fs, &["target", "conf"]),
        Node::Symlink { target: p(&["stow_dir", "pkg", "conf"]) }
    );
}

/// An invalid rewrite pattern aborts construction; missing roots do too.
#[test]
fn new_rejects_bad_configuration() {
    let fs = Fs { root: dir(vec![("stow_dir", dir(vec![])), ("target", dir(vec![]))]) };
    let args = Args {
        stow_dir: p(&["stow_dir"]),
        target_dir: p(&["target"]),
        verbose: false,
        simulate: false,
        no_special_paths: false,
        no_security_check: false,
        replace_name: vec!["(".to_string(), "x".to_string()],
        stow: Vec::new(),
        unstow: Vec::new(),
        restow: Vec::new(),
        adopt: Vec::new(),
    };
    match Stower::new(args, &fs, None, ConfirmPolicy::DeclineAll) {
        Err(e) => assert_eq!(e, StowError::InvalidPattern),
        Ok(_) => panic!("an invalid pattern should be refused"),
    }

    let args = Args {
        stow_dir: p(&["missing"]),
        target_dir: p(&["target"]),
        verbose: false,
        simulate: false,
        no_special_paths: false,
        no_security_check: false,
        replace_name: Vec::new(),
        stow: Vec::new(),
        unstow: Vec::new(),
        restow: Vec::new(),
        adopt: Vec::new(),
    };
    match Stower::new(args, &fs, None, ConfirmPolicy::DeclineAll) {
        Err(e) => assert_eq!(e, StowError::NotADirectory),
        Ok(_) => panic!("a missing root should be refused"),
    }
}

/// Restow repairs a broken link: a run's unstow pass removes it and the
/// stow pass recreates it.
#[test]
fn run_restow_repairs_a_link() {
    let mut fs = Fs {
        root: dir(vec![
            ("stow_dir", dir(vec![("pkg", dir(vec![("conf", file(7))]))])),
            ("target", dir(vec![("conf", Node::Symlink { target: p(&["somewhere", "else"]) })])),
        ]),
    };
    let args = Args {
        stow_dir: p(&["stow_dir"]),
        target_dir: p(&["target"]),
        verbose: false,
        simulate: false,
        no_special_paths: false,
        no_security_check: false,
        replace_name: Vec::new(),
        stow: Vec::new(),
        unstow: Vec::new(),
        restow: vec![p(&["pkg"])],
        adopt: Vec::new(),
    };
    let eng = Stower::new(args, &fs, None, ConfirmPolicy::DeclineAll).unwrap();
    let actions = eng.run(&mut fs);

    assert_eq!(actions.len(), 2);
    assert_eq!(
        node_at(&fs, &["target", "conf"]),
        Node::Symlink { target: p(&["stow_dir", "pkg", "conf"]) }
    );
}

/// An adopt run pulls the target file into the package and the stow
/// pass that follows re-links it.
#[test]
fn run_adopt_then_stow_relinks() {
    let mut fs = Fs {
        root: dir(vec![
            ("stow_dir", dir(vec![("pkg", dir(vec![("conf", file(7))]))])),
            ("target", dir(vec![("conf", file(42))])),
        ]),
    };
    let args = Args {
        stow_dir: p(&["stow_dir"]),
        target_dir: p(&["target"]),
        verbose: false,
        simulate: false,
        no_special_paths: false,
        no_security_check: false,
        replace_name: Vec::new(),
        stow: Vec::new(),
        unstow: Vec::new(),
        restow: Vec::new(),
        adopt: vec![p(&["pkg"])],
    };
    let eng = Stower::new(args, &fs, None, ConfirmPolicy::DeclineAll).unwrap();
    eng.run(&mut fs);

    assert_eq!(node_at(&fs, &["stow_dir", "pkg", "conf"]), file(42));
    assert_eq!(
        node_at(&fs, &["target", "conf"]),
        Node::Symlink { target: p(&["stow_dir", "pkg", "conf"]) }
    );
}

/// `get_name` yields the final component, or names the filesystem root.
#[test]
fn get_name_of_paths() {
    assert_eq!(get_name(&p(&["a", "b", "c"])), "c");
    assert_eq!(get_name(&p(&[])), "filesystem root");
}

/// The security guard is a conjunction over the whole subtree.
#[test]
fn root_ownership_is_recursive() {
    assert!(is_root_file(&root_file(1)));
    assert!(!is_root_file(&file(1)));
    let mixed = Node::Dir {
        root_owned: true,
        entries: vec![
            Entry { name: "a".to_string(), node: root_file(1) },
            Entry { name: "b".to_string(), node: file(2) },
        ],
    };
    assert!(!is_root_file(&mixed));
    let owned = Node::Dir {
        root_owned: true,
        entries: vec![Entry { name: "a".to_string(), node: root_file(1) }],
    };
    assert!(is_root_file(&owned));
    assert!(!is_root_file(&Node::Symlink { target: p(&["x"]) }));
}

/// The default options enable the keywords and the security check.
#[test]
fn options_defaults() {
    let o = Options::new(p(&["stow_dir"]), p(&["target"]));
    assert!(o.special_keywords);
    assert!(o.security_check);
    assert!(!o.verbose);
    assert!(!o.simulate);
    assert_eq!(o.stow_dir, p(&["stow_dir"]));
    assert_eq!(o.target_dir, p(&["target"]));
}

/// Request lists are filtered: hidden names, plain files and missing
/// entries are dropped; the rest are joined under the stow area.
#[test]
fn ready_directories_filters_requests() {
    let fs = Fs {
        root: dir(vec![(
            "stow_dir",
            dir(vec![
                ("pkg", dir(vec![])),
                (".git", dir(vec![])),
                ("loose", file(1)),
            ]),
        )]),
    };
    let requested = vec![p(&["pkg"]), p(&[".git"]), p(&["loose"]), p(&["missing"]), p(&[])];
    let kept = Stower::ready_directories(&p(&["stow_dir"]), &requested, &fs);
    assert_eq!(kept, vec![p(&["stow_dir", "pkg"])]);
}
