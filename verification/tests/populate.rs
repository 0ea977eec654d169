use rdu::entry::{Directory, File, Metadata};
use rdu::error::{ErrorKind, ScanError};
use rdu::populate::Population;
use rdu::report::traverse_from_metadata;
use rdu::walk::{Listed, MAX_DEPTH};
use std::collections::HashMap;

fn file(len: u64) -> Metadata {
    Metadata { is_dir: false, is_file: true, is_symlink: false, len }
}

fn dir(len: u64) -> Metadata {
    Metadata { is_dir: true, is_file: false, is_symlink: false, len }
}

fn link(len: u64) -> Metadata {
    Metadata { is_dir: false, is_file: false, is_symlink: true, len }
}

fn listed(path: &str, metadata: Metadata) -> Listed {
    Listed::new(path.to_string(), metadata)
}

type Tree = HashMap<String, Result<Vec<Listed>, ScanError>>;

fn answer(tree: &Tree, path: &str) -> Result<Vec<Listed>, ScanError> {
    match tree.get(path) {
        Some(found) => found.clone(),
        None => Err(ScanError::new(
            ErrorKind::PathNotFound,
            path.to_string(),
            "no such directory".to_string(),
        )),
    }
}

fn build(root: &Directory, tree: &Tree) -> Result<Directory, ScanError> {
    let mut walk: Population = root.populate();
    loop {
        let wanted = match walk.pending() {
            Some(path) => path.clone(),
            None => break,
        };
        walk = walk.step(answer(tree, &wanted));
    }
    walk.finish().unwrap()
}

fn report_total(root: &str, tree: &Tree) -> Result<u64, ScanError> {
    let (mut walk, _) = traverse_from_metadata(root.to_string(), dir(4096));
    loop {
        let wanted = match walk.pending() {
            Some(path) => path.clone(),
            None => break,
        };
        walk = walk.step(answer(tree, &wanted)).0;
    }
    walk.outcome().unwrap()
}

fn nested() -> Tree {
    let mut tree = Tree::new();
    tree.insert(
        "root".to_string(),
        Ok(vec![listed("root/a", file(10)), listed("root/sub", dir(64))]),
    );
    tree.insert("root/sub".to_string(), Ok(vec![listed("root/sub/b", file(20))]));
    tree
}

#[test]
fn populate_builds_the_nested_tree() {
    let root = Directory::from("root".to_string(), 4096);
    let built = build(&root, &nested()).unwrap();
    let expected = Directory {
        path: "root".to_string(),
        size: 4096,
        dirs: vec![Directory {
            path: "root/sub".to_string(),
            size: 64,
            dirs: vec![],
            files: vec![File::from("root/sub/b".to_string(), 20)],
        }],
        files: vec![File::from("root/a".to_string(), 10)],
    };
    assert_eq!(built, expected);
}

#[test]
fn populate_keeps_path_and_metadata_size() {
    let root = Directory::from("root".to_string(), 777);
    let built = build(&root, &nested()).unwrap();
    assert_eq!(built.path, "root");
    assert_eq!(built.size, 777);
}

#[test]
fn populate_ignores_children_already_held() {
    let mut root = Directory::from("root".to_string(), 1);
    root.files.push(File::from("stale".to_string(), 99));
    let built = build(&root, &nested()).unwrap();
    assert_eq!(built.files, vec![File::from("root/a".to_string(), 10)]);
}

#[test]
fn populate_leaves_the_input_unchanged() {
    let root = Directory::from("root".to_string(), 4096);
    let _ = build(&root, &nested());
    assert_eq!(root, Directory::from("root".to_string(), 4096));
}

#[test]
fn populate_keeps_listing_order_within_files_and_directories() {
    let mut tree = Tree::new();
    tree.insert(
        "r".to_string(),
        Ok(vec![
            listed("r/2", file(2)),
            listed("r/d2", dir(0)),
            listed("r/1", file(1)),
            listed("r/d1", dir(0)),
        ]),
    );
    tree.insert("r/d1".to_string(), Ok(vec![]));
    tree.insert("r/d2".to_string(), Ok(vec![]));
    let built = build(&Directory::from("r".to_string(), 0), &tree).unwrap();
    let files: Vec<&str> = built.files.iter().map(|f| f.path.as_str()).collect();
    let dirs: Vec<&str> = built.dirs.iter().map(|d| d.path.as_str()).collect();
    assert_eq!(files, vec!["r/2", "r/1"]);
    assert_eq!(dirs, vec!["r/d2", "r/d1"]);
}

#[test]
fn populate_drops_symlinks() {
    let mut tree = Tree::new();
    tree.insert(
        "root".to_string(),
        Ok(vec![listed("root/ln", link(1 << 40)), listed("root/a", file(3))]),
    );
    let built = build(&Directory::from("root".to_string(), 0), &tree).unwrap();
    assert_eq!(built.files, vec![File::from("root/a".to_string(), 3)]);
    assert!(built.dirs.is_empty());
    assert_eq!(built.aggregate_size(), Some(3));
}

#[test]
fn populate_of_empty_directory_has_no_children() {
    let mut tree = Tree::new();
    tree.insert("e".to_string(), Ok(vec![]));
    let built = build(&Directory::from("e".to_string(), 4096), &tree).unwrap();
    assert_eq!(built, Directory::from("e".to_string(), 4096));
    assert_eq!(built.aggregate_size(), Some(0));
}

#[test]
fn populate_fails_when_a_subdirectory_cannot_be_listed() {
    let denied = ScanError::new(
        ErrorKind::DirectoryUnreadable,
        "root/sub".to_string(),
        "permission denied".to_string(),
    );
    let mut tree = nested();
    tree.insert("root/sub".to_string(), Err(denied.clone()));
    let outcome = build(&Directory::from("root".to_string(), 0), &tree);
    assert_eq!(outcome, Err(denied));
}

#[test]
fn populate_fails_when_the_root_cannot_be_listed() {
    let tree = Tree::new();
    let outcome = build(&Directory::from("gone".to_string(), 0), &tree);
    assert_eq!(outcome.unwrap_err().kind, ErrorKind::PathNotFound);
}

#[test]
fn populate_fails_below_the_depth_limit() {
    let mut tree = Tree::new();
    let mut path = "d".to_string();
    for _ in 0..(MAX_DEPTH + 1) {
        let child = format!("{}/d", path);
        tree.insert(path.clone(), Ok(vec![listed(&child, dir(0))]));
        path = child;
    }
    tree.insert(path.clone(), Ok(vec![]));
    let outcome = build(&Directory::from("d".to_string(), 0), &tree);
    let error = outcome.unwrap_err();
    assert_eq!(error.kind, ErrorKind::DeepRecursionLimit);
    assert_eq!(error.cause, "");
}

#[test]
fn populate_reaches_the_depth_limit() {
    let mut tree = Tree::new();
    let mut path = "d".to_string();
    for _ in 0..MAX_DEPTH {
        let child = format!("{}/d", path);
        tree.insert(path.clone(), Ok(vec![listed(&child, dir(0))]));
        path = child;
    }
    tree.insert(path.clone(), Ok(vec![listed("leaf", file(9))]));
    let built = build(&Directory::from("d".to_string(), 0), &tree).unwrap();
    assert_eq!(built.aggregate_size(), Some(9));
}

#[test]
fn unfinished_population_has_no_outcome() {
    let walk = Directory::from("root".to_string(), 0).populate();
    assert_eq!(walk.pending().map(|p| p.as_str()), Some("root"));
    assert!(walk.finish().is_none());
}

#[test]
fn finished_population_ignores_further_answers() {
    let mut tree = Tree::new();
    tree.insert("e".to_string(), Ok(vec![]));
    let walk = Directory::from("e".to_string(), 5).populate();
    let done = walk.step(answer(&tree, "e"));
    assert!(done.pending().is_none());
    let still = done.step(Ok(vec![listed("x", file(1))]));
    assert_eq!(still.finish(), Some(Ok(Directory::from("e".to_string(), 5))));
}

#[test]
fn report_total_is_the_aggregate_of_the_populated_tree() {
    let tree = nested();
    let built = build(&Directory::from("root".to_string(), 4096), &tree).unwrap();
    assert_eq!(built.aggregate_size(), Some(30));
    assert_eq!(report_total("root", &tree), Ok(30));
}

#[test]
fn listing_order_does_not_change_the_aggregate() {
    let mut swapped = Tree::new();
    swapped.insert(
        "root".to_string(),
        Ok(vec![listed("root/sub", dir(64)), listed("root/a", file(10))]),
    );
    swapped.insert("root/sub".to_string(), Ok(vec![listed("root/sub/b", file(20))]));
    let first = build(&Directory::from("root".to_string(), 0), &nested()).unwrap();
    let second = build(&Directory::from("root".to_string(), 0), &swapped).unwrap();
    assert_eq!(first.aggregate_size(), second.aggregate_size());
    assert_eq!(report_total("root", &nested()), report_total("root", &swapped));
}

#[test]
fn populating_twice_gives_the_same_tree() {
    let root = Directory::from("root".to_string(), 4096);
    assert_eq!(build(&root, &nested()), build(&root, &nested()));
}
