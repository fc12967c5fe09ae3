//! The engine driven over the modelled file tree: stowing and unstowing
//! single entries, whole packages, and the full sample stow area.

use rustow::fsmodel::{clone_node, lookup_in, Entry, Fs, Node};
use rustow::path::FsPath;
use rustow::stower::{ConfirmPolicy, Op, Stower};

fn p(parts: &[&str]) -> FsPath {
    FsPath { parts: parts.iter().map(|s| s.to_string()).collect() }
}

fn file(content: u64) -> Node {
    Node::File { root_owned: false, content }
}

fn dir(children: Vec<(&str, Node)>) -> Node {
    Node::Dir {
        root_owned: false,
        entries: children
            .into_iter()
            .map(|(name, node)| Entry { name: name.to_string(), node })
            .collect(),
    }
}

/// The sample working directory: a pre-existing `existing_directory` and a
/// stow area with three packages.
fn create_environment() -> Fs {
    Fs {
        root: dir(vec![
            ("existing_directory", dir(vec![])),
            (
                "stow_dir",
                dir(vec![
                    (
                        "stow1",
                        dir(vec![
                            (
                                "existing_directory",
                                dir(vec![("file_in_existing_directory", file(1))]),
                            ),
                            ("file_in_target_root", file(2)),
                        ]),
                    ),
                    (
                        "stow2",
                        dir(vec![
                            (
                                "existing_directory",
                                dir(vec![("another_file_in_existing_directory", file(3))]),
                            ),
                            (
                                "another_directory",
                                dir(vec![
                                    ("file_in_another_directory1", file(4)),
                                    ("file_in_another_directory2", file(5)),
                                ]),
                            ),
                        ]),
                    ),
                    (
                        "stow3",
                        dir(vec![(
                            "another_directory",
                            dir(vec![("file_in_another_directory3", file(6))]),
                        )]),
                    ),
                ]),
            ),
        ]),
    }
}

fn engine() -> Stower {
    Stower {
        stow_dir: p(&["stow_dir"]),
        target_dir: p(&[]),
        simulate: false,
        verbose: false,
        special_paths: false,
        security_check: true,
        replace_name: None,
        stow: Vec::new(),
        unstow: Vec::new(),
        restow: Vec::new(),
        adopt: Vec::new(),
        home: None,
        policy: ConfirmPolicy::DeclineAll,
    }
}

/// The entries of the directory at `path`, as (name, is_symlink) pairs
/// sorted by name.
fn listing(fs: &Fs, path: &[&str]) -> Vec<(String, bool)> {
    let node = lookup_in(&fs.root, &p(path), 0).expect("directory should exist");
    match node {
        Node::Dir { entries, .. } => {
            let mut v: Vec<(String, bool)> = entries
                .iter()
                .map(|e| (e.name.clone(), matches!(e.node, Node::Symlink { .. })))
                .collect();
            v.sort();
            v
        }
        _ => panic!("not a directory"),
    }
}

fn node_at(fs: &Fs, path: &[&str]) -> Node {
    clone_node(lookup_in(&fs.root, &p(path), 0).expect("node should exist"))
}

fn stow_entry(fs: &mut Fs, original: &[&str], destination: &[&str]) {
    let eng = engine();
    let orig = node_at(fs, original);
    let mut actions = Vec::new();
    eng.stow(fs, &orig, &p(original), &p(destination), false, 64, &mut actions)
        .expect("stow should succeed");
}

fn unstow_entry(fs: &mut Fs, original: &[&str], destination: &[&str]) {
    let eng = engine();
    let orig = node_at(fs, original);
    let mut actions = Vec::new();
    eng.unstow(fs, &orig, &p(original), &p(destination), false, 64, &mut actions)
        .expect("unstow should succeed");
}

fn all_packages(fs: &Fs) -> Vec<Vec<String>> {
    let stow_dir = node_at(fs, &["stow_dir"]);
    match stow_dir {
        Node::Dir { entries, .. } => entries
            .iter()
            .filter(|e| matches!(e.node, Node::Dir { .. }))
            .filter(|e| !e.name.starts_with('.'))
            .map(|e| vec!["stow_dir".to_string(), e.name.clone()])
            .collect(),
        _ => panic!("stow_dir should be a directory"),
    }
}

fn walk_package(fs: &mut Fs, op: Op, package: &[String]) {
    let eng = engine();
    let path = FsPath { parts: package.to_vec() };
    let pnode = clone_node(lookup_in(&fs.root, &path, 0).expect("package should exist"));
    let mut actions = Vec::new();
    let extra = matches!(op, Op::Unstow);
    eng.handle_directory(fs, &pnode, &path, &p(&[]), op, false, extra, 64, &mut actions)
        .expect("package walk should succeed");
}

#[test]
fn basic_stow_file() {
    let mut fs = create_environment();

    stow_entry(
        &mut fs,
        &["stow_dir", "stow1", "file_in_target_root"],
        &["file_in_target_root"],
    );

    let after = listing(&fs, &[]);
    assert_eq!(after.len(), 3);
    assert!(!after[0].1);
    assert!(after[1].1);
    assert!(!after[2].1);
}

#[test]
fn basic_stow_folder() {
    let mut fs = create_environment();

    stow_entry(
        &mut fs,
        &["stow_dir", "stow2", "another_directory"],
        &["another_directory"],
    );

    let after = listing(&fs, &[]);
    assert_eq!(after.len(), 3);
    assert!(after[0].1);
    assert!(!after[1].1);
    assert!(!after[2].1);
}

#[test]
fn basic_stow_w_parent_directory_exits() {
    let mut fs = create_environment();

    stow_entry(
        &mut fs,
        &["stow_dir", "stow1", "existing_directory"],
        &["existing_directory"],
    );

    let after = listing(&fs, &[]);
    assert_eq!(after.len(), 2);
    assert!(!after[0].1);
    assert!(!after[1].1);

    let inside = listing(&fs, &["existing_directory"]);
    assert_eq!(inside.len(), 1);
    assert!(inside[0].1);
}

#[test]
fn full_stow() {
    let mut fs = create_environment();

    for package in all_packages(&fs) {
        walk_package(&mut fs, Op::Stow, &package);
    }

    let after = listing(&fs, &[]);
    assert_eq!(after.len(), 4);
    assert!(!after[0].1);
    assert!(!after[1].1);
    assert!(after[2].1);
    assert!(!after[3].1);

    let inside = listing(&fs, &["existing_directory"]);
    assert_eq!(inside.len(), 2);
    assert!(inside[0].1);
    assert!(inside[1].1);
}

#[test]
fn basic_unstow_file() {
    let mut fs = create_environment();

    stow_entry(
        &mut fs,
        &["stow_dir", "stow1", "file_in_target_root"],
        &["file_in_target_root"],
    );

    let after = listing(&fs, &[]);
    assert_eq!(after.len(), 3);
    assert!(!after[0].1);
    assert!(after[1].1);
    assert!(!after[2].1);

    unstow_entry(
        &mut fs,
        &["stow_dir", "stow1", "file_in_target_root"],
        &["file_in_target_root"],
    );

    let after = listing(&fs, &[]);
    assert_eq!(after.len(), 2);
    assert!(!after[0].1);
    assert!(!after[1].1);
}

#[test]
fn basic_unstow_folder() {
    let mut fs = create_environment();

    stow_entry(
        &mut fs,
        &["stow_dir", "stow2", "another_directory"],
        &["another_directory"],
    );

    let after = listing(&fs, &[]);
    assert_eq!(after.len(), 3);
    assert!(after[0].1);
    assert!(!after[1].1);
    assert!(!after[2].1);

    unstow_entry(
        &mut fs,
        &["stow_dir", "stow2", "another_directory"],
        &["another_directory"],
    );

    let after = listing(&fs, &[]);
    assert_eq!(after.len(), 2);
    assert!(!after[0].1);
    assert!(!after[1].1);
}

#[test]
fn basic_unstow_w_parent_directory_exits() {
    let mut fs = create_environment();

    stow_entry(
        &mut fs,
        &["stow_dir", "stow1", "existing_directory"],
        &["existing_directory"],
    );

    let after = listing(&fs, &[]);
    assert_eq!(after.len(), 2);
    assert!(!after[0].1);
    assert!(!after[1].1);

    let inside = listing(&fs, &["existing_directory"]);
    assert_eq!(inside.len(), 1);
    assert!(inside[0].1);

    unstow_entry(
        &mut fs,
        &["stow_dir", "stow1", "existing_directory"],
        &["existing_directory"],
    );

    let after = listing(&fs, &[]);
    assert_eq!(after.len(), 1);
    assert!(!after[0].1);
}

#[test]
fn full_unstow() {
    let mut fs = create_environment();

    for package in all_packages(&fs) {
        walk_package(&mut fs, Op::Stow, &package);
    }

    let after = listing(&fs, &[]);
    assert_eq!(after.len(), 4);
    assert!(!after[0].1);
    assert!(!after[1].1);
    assert!(after[2].1);
    assert!(!after[3].1);

    let inside = listing(&fs, &["existing_directory"]);
    assert_eq!(inside.len(), 2);
    assert!(inside[0].1);
    assert!(inside[1].1);

    for package in all_packages(&fs) {
        walk_package(&mut fs, Op::Unstow, &package);
    }

    let after = listing(&fs, &[]);
    assert_eq!(after.len(), 1);
    assert!(!after[0].1);
}
