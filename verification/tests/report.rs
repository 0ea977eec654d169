use rdu::entry::Metadata;
use rdu::error::{ErrorKind, ScanError};
use rdu::report::{traverse_from_metadata, traverse_path, Line, Reporter};
use rdu::walk::{Listed, MAX_DEPTH};
use std::collections::HashMap;

fn file(len: u64) -> Metadata {
    Metadata { is_dir: false, is_file: true, is_symlink: false, len }
}

fn dir() -> Metadata {
    Metadata { is_dir: true, is_file: false, is_symlink: false, len: 4096 }
}

fn link(len: u64) -> Metadata {
    Metadata { is_dir: false, is_file: false, is_symlink: true, len }
}

fn listed(path: &str, metadata: Metadata) -> Listed {
    Listed::new(path.to_string(), metadata)
}

type Disk = HashMap<String, Result<Vec<Listed>, ScanError>>;

fn answer(disk: &Disk, path: &str) -> Result<Vec<Listed>, ScanError> {
    match disk.get(path) {
        Some(found) => found.clone(),
        None => Err(ScanError::new(
            ErrorKind::PathNotFound,
            path.to_string(),
            "no such directory".to_string(),
        )),
    }
}

fn drive(started: (Reporter, Vec<Line>), disk: &Disk) -> (Vec<Line>, Result<u64, ScanError>) {
    let (mut walk, mut lines) = started;
    loop {
        let wanted = match walk.pending() {
            Some(path) => path.clone(),
            None => break,
        };
        let (next, more) = walk.step(answer(disk, &wanted));
        walk = next;
        lines.extend(more);
    }
    (lines, walk.outcome().unwrap())
}

#[test]
fn pass() {
    assert_eq!(1, 1)
}

#[test]
fn empty_directory_totals_zero() {
    let mut disk = Disk::new();
    disk.insert("empty".to_string(), Ok(vec![]));
    let (lines, outcome) = drive(traverse_from_metadata("empty".to_string(), dir()), &disk);
    assert_eq!(outcome, Ok(0));
    assert_eq!(
        lines,
        vec![
            Line::Summary { depth: 0, path: "empty".to_string(), local: 0 },
            Line::Total { total: 0 },
        ]
    );
}

#[test]
fn single_file_root_totals_its_size() {
    let disk = Disk::new();
    let (lines, outcome) = drive(traverse_from_metadata("a.bin".to_string(), file(12345)), &disk);
    assert_eq!(outcome, Ok(12345));
    assert_eq!(
        lines,
        vec![
            Line::Entry { depth: 0, path: "a.bin".to_string(), size: 12345 },
            Line::Total { total: 12345 },
        ]
    );
}

#[test]
fn nested_example_totals_thirty() {
    let mut disk = Disk::new();
    disk.insert(
        "root".to_string(),
        Ok(vec![listed("root/a", file(10)), listed("root/sub", dir())]),
    );
    disk.insert("root/sub".to_string(), Ok(vec![listed("root/sub/b", file(20))]));
    let (lines, outcome) = drive(traverse_from_metadata("root".to_string(), dir()), &disk);
    assert_eq!(outcome, Ok(30));
    assert_eq!(
        lines,
        vec![
            Line::Entry { depth: 1, path: "root/a".to_string(), size: 10 },
            Line::Announce { depth: 1, path: "root/sub".to_string() },
            Line::Entry { depth: 2, path: "root/sub/b".to_string(), size: 20 },
            Line::Summary { depth: 1, path: "root/sub".to_string(), local: 20 },
            Line::DirSum { total: 20 },
            Line::Summary { depth: 0, path: "root".to_string(), local: 10 },
            Line::Total { total: 30 },
        ]
    );
}

#[test]
fn child_order_does_not_change_the_total() {
    let mut disk = Disk::new();
    disk.insert(
        "root".to_string(),
        Ok(vec![listed("root/sub", dir()), listed("root/a", file(10))]),
    );
    disk.insert("root/sub".to_string(), Ok(vec![listed("root/sub/b", file(20))]));
    let (_, outcome) = drive(traverse_from_metadata("root".to_string(), dir()), &disk);
    assert_eq!(outcome, Ok(30));
}

#[test]
fn scanning_twice_gives_the_same_report() {
    let mut disk = Disk::new();
    disk.insert(
        "root".to_string(),
        Ok(vec![listed("root/a", file(10)), listed("root/sub", dir())]),
    );
    disk.insert("root/sub".to_string(), Ok(vec![listed("root/sub/b", file(20))]));
    let first = drive(traverse_from_metadata("root".to_string(), dir()), &disk);
    let second = drive(traverse_from_metadata("root".to_string(), dir()), &disk);
    assert_eq!(first, second);
}

#[test]
fn symlink_contributes_no_bytes() {
    let mut disk = Disk::new();
    disk.insert("root".to_string(), Ok(vec![listed("root/big", link(1 << 40))]));
    let (lines, outcome) = drive(traverse_from_metadata("root".to_string(), dir()), &disk);
    assert_eq!(outcome, Ok(0));
    assert_eq!(
        lines,
        vec![
            Line::Summary { depth: 0, path: "root".to_string(), local: 0 },
            Line::Total { total: 0 },
        ]
    );
}

#[test]
fn symlink_root_totals_zero() {
    let disk = Disk::new();
    let (lines, outcome) = drive(traverse_from_metadata("ln".to_string(), link(7)), &disk);
    assert_eq!(outcome, Ok(0));
    assert_eq!(lines, vec![Line::Total { total: 0 }]);
}

#[test]
fn unreadable_subdirectory_fails_the_scan() {
    let denied = ScanError::new(
        ErrorKind::DirectoryUnreadable,
        "root/secret".to_string(),
        "permission denied".to_string(),
    );
    let mut disk = Disk::new();
    disk.insert(
        "root".to_string(),
        Ok(vec![
            listed("root/a", file(10)),
            listed("root/secret", dir()),
            listed("root/z", file(5)),
        ]),
    );
    disk.insert("root/secret".to_string(), Err(denied.clone()));
    let (lines, outcome) = drive(traverse_from_metadata("root".to_string(), dir()), &disk);
    assert_eq!(outcome, Err(denied));
    assert!(!lines.iter().any(|line| matches!(line, Line::Total { .. })));
}

#[test]
fn missing_root_fails_before_any_listing() {
    let missing = ScanError::new(
        ErrorKind::PathNotFound,
        "nowhere".to_string(),
        "no such file or directory".to_string(),
    );
    let (walk, lines) = traverse_path("nowhere".to_string(), Err(missing.clone()));
    assert!(walk.pending().is_none());
    assert!(lines.is_empty());
    assert_eq!(walk.outcome(), Some(Err(missing)));
}

#[test]
fn traverse_path_with_metadata_walks_the_tree() {
    let mut disk = Disk::new();
    disk.insert("root".to_string(), Ok(vec![listed("root/a", file(3))]));
    let (_, outcome) = drive(traverse_path("root".to_string(), Ok(dir())), &disk);
    assert_eq!(outcome, Ok(3));
}

#[test]
fn metadata_failure_of_a_child_fails_the_scan() {
    let gone = ScanError::new(
        ErrorKind::MetadataUnavailable,
        "root/vanished".to_string(),
        "stale handle".to_string(),
    );
    let mut disk = Disk::new();
    disk.insert("root".to_string(), Err(gone.clone()));
    let (_, outcome) = drive(traverse_from_metadata("root".to_string(), dir()), &disk);
    assert_eq!(outcome, Err(gone));
}

#[test]
fn total_that_does_not_fit_fails_the_scan() {
    let mut disk = Disk::new();
    disk.insert(
        "root".to_string(),
        Ok(vec![listed("root/a", file(u64::MAX)), listed("root/b", file(1))]),
    );
    let (_, outcome) = drive(traverse_from_metadata("root".to_string(), dir()), &disk);
    assert_eq!(
        outcome,
        Err(ScanError::new(ErrorKind::TotalOverflow, "root/b".to_string(), String::new()))
    );
}

#[test]
fn chain_deeper_than_the_limit_fails_the_scan() {
    let mut disk = Disk::new();
    let mut path = "d".to_string();
    for _ in 0..(MAX_DEPTH + 1) {
        let child = format!("{}/d", path);
        disk.insert(path.clone(), Ok(vec![listed(&child, dir())]));
        path = child;
    }
    disk.insert(path.clone(), Ok(vec![]));
    let (_, outcome) = drive(traverse_from_metadata("d".to_string(), dir()), &disk);
    match outcome {
        Err(error) => assert_eq!(error.kind, ErrorKind::DeepRecursionLimit),
        Ok(total) => panic!("walk ended with {}", total),
    }
}

#[test]
fn chain_as_deep_as_the_limit_is_walked() {
    let mut disk = Disk::new();
    let mut path = "d".to_string();
    for _ in 0..MAX_DEPTH {
        let child = format!("{}/d", path);
        disk.insert(path.clone(), Ok(vec![listed(&child, dir())]));
        path = child;
    }
    disk.insert(path.clone(), Ok(vec![listed("leaf", file(9))]));
    let (_, outcome) = drive(traverse_from_metadata("d".to_string(), dir()), &disk);
    assert_eq!(outcome, Ok(9));
}

#[test]
fn finished_walk_ignores_further_answers() {
    let (walk, _) = traverse_from_metadata("a".to_string(), file(1));
    let (after, lines) = walk.step(Ok(vec![listed("x", file(100))]));
    assert_eq!(after.outcome(), Some(Ok(1)));
    assert!(lines.is_empty());
}

#[test]
fn subtotal_that_does_not_fit_in_the_parent_fails_the_scan() {
    let mut disk = Disk::new();
    disk.insert(
        "root".to_string(),
        Ok(vec![listed("root/a", file(u64::MAX)), listed("root/sub", dir())]),
    );
    disk.insert("root/sub".to_string(), Ok(vec![listed("root/sub/b", file(1))]));
    let (lines, outcome) = drive(traverse_from_metadata("root".to_string(), dir()), &disk);
    assert_eq!(
        outcome,
        Err(ScanError::new(ErrorKind::TotalOverflow, "root".to_string(), String::new()))
    );
    assert_eq!(lines.last(), Some(&Line::DirSum { total: 1 }));
}

#[test]
fn total_that_just_fits_is_reported() {
    let mut disk = Disk::new();
    disk.insert(
        "root".to_string(),
        Ok(vec![listed("root/a", file(u64::MAX - 1)), listed("root/sub", dir())]),
    );
    disk.insert("root/sub".to_string(), Ok(vec![listed("root/sub/b", file(1))]));
    let (_, outcome) = drive(traverse_from_metadata("root".to_string(), dir()), &disk);
    assert_eq!(outcome, Ok(u64::MAX));
}

#[test]
fn entry_that_is_neither_file_nor_directory_is_passed_over() {
    let socket = Metadata { is_dir: false, is_file: false, is_symlink: false, len: 77 };
    let mut disk = Disk::new();
    disk.insert(
        "root".to_string(),
        Ok(vec![listed("root/sock", socket), listed("root/a", file(4))]),
    );
    let (lines, outcome) = drive(traverse_from_metadata("root".to_string(), dir()), &disk);
    assert_eq!(outcome, Ok(4));
    assert_eq!(lines.len(), 3);
}

#[test]
fn file_flag_is_read_before_directory_flag() {
    let both = Metadata { is_dir: true, is_file: true, is_symlink: false, len: 8 };
    let (walk, lines) = traverse_from_metadata("odd".to_string(), both);
    assert_eq!(walk.outcome(), Some(Ok(8)));
    assert_eq!(lines.len(), 2);
}

#[test]
fn deeper_levels_are_indented_further() {
    let mut disk = Disk::new();
    disk.insert("r".to_string(), Ok(vec![listed("r/s", dir())]));
    disk.insert("r/s".to_string(), Ok(vec![listed("r/s/t", dir())]));
    disk.insert("r/s/t".to_string(), Ok(vec![listed("r/s/t/f", file(5))]));
    let (lines, outcome) = drive(traverse_from_metadata("r".to_string(), dir()), &disk);
    assert_eq!(outcome, Ok(5));
    let text: Vec<String> = lines.iter().map(|line| line.to_text()).collect();
    assert_eq!(
        text,
        vec![
            "  r/s/",
            "    r/s/t/",
            "      r/s/t/f - 5",
            "    r/s/t/ - 5",
            "Dirsum: 5",
            "  r/s/ - 0",
            "Dirsum: 5",
            "r/ - 0",
            "Total: 5",
        ]
    );
}

#[test]
fn walk_asks_for_one_listing_per_directory() {
    let mut disk = Disk::new();
    disk.insert(
        "r".to_string(),
        Ok(vec![listed("r/a", dir()), listed("r/f", file(1)), listed("r/b", dir())]),
    );
    disk.insert("r/a".to_string(), Ok(vec![]));
    disk.insert("r/b".to_string(), Ok(vec![]));
    let (mut walk, _) = traverse_from_metadata("r".to_string(), dir());
    let mut asked = Vec::new();
    loop {
        let wanted = match walk.pending() {
            Some(path) => path.clone(),
            None => break,
        };
        asked.push(wanted.clone());
        walk = walk.step(answer(&disk, &wanted)).0;
    }
    assert_eq!(asked, vec!["r", "r/a", "r/b"]);
}
