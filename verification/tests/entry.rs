use rdu::entry::{Directory, FSEntry, File, Metadata, SymLink};

fn meta(is_dir: bool, is_file: bool, is_symlink: bool, len: u64) -> Metadata {
    Metadata { is_dir, is_file, is_symlink, len }
}

#[test]
fn directory_from_has_no_children() {
    let dir = Directory::from("d".to_string(), 4096);
    assert_eq!(dir.path, "d");
    assert_eq!(dir.size, 4096);
    assert!(dir.dirs.is_empty());
    assert!(dir.files.is_empty());
}

#[test]
fn file_from_keeps_path_and_size() {
    let file = File::from("f".to_string(), 12);
    assert_eq!(file.path, "f");
    assert_eq!(file.size, 12);
}

#[test]
fn symlink_from_keeps_path_and_size() {
    let link = SymLink::from("l".to_string(), 7);
    assert_eq!(link.path, "l");
    assert_eq!(link.size, 7);
}

#[test]
fn classify_directory() {
    let entry = FSEntry::from("d".to_string(), meta(true, false, false, 4096));
    assert_eq!(entry, FSEntry::Directory(Directory::from("d".to_string(), 4096)));
}

#[test]
fn classify_symlink() {
    let entry = FSEntry::from("l".to_string(), meta(false, false, true, 9));
    assert_eq!(entry, FSEntry::SymLink(SymLink::from("l".to_string(), 9)));
}

#[test]
fn classify_file() {
    let entry = FSEntry::from("f".to_string(), meta(false, true, false, 123));
    assert_eq!(entry, FSEntry::File(File::from("f".to_string(), 123)));
}

#[test]
fn classify_neither_kind_is_a_file() {
    let entry = FSEntry::from("sock".to_string(), meta(false, false, false, 0));
    assert_eq!(entry, FSEntry::File(File::from("sock".to_string(), 0)));
}

#[test]
fn classify_prefers_directory_over_symlink() {
    let entry = FSEntry::from("x".to_string(), meta(true, false, true, 1));
    assert_eq!(entry, FSEntry::Directory(Directory::from("x".to_string(), 1)));
}

#[test]
fn classify_prefers_symlink_over_file() {
    let entry = FSEntry::from("x".to_string(), meta(false, true, true, 1));
    assert_eq!(entry, FSEntry::SymLink(SymLink::from("x".to_string(), 1)));
}

#[test]
fn aggregate_of_childless_directory_is_zero() {
    assert_eq!(Directory::from("e".to_string(), 4096).aggregate_size(), Some(0));
}

#[test]
fn aggregate_ignores_metadata_sizes_of_directories() {
    let dir = Directory {
        path: "r".to_string(),
        size: 1000,
        dirs: vec![Directory::from("r/e".to_string(), 2000)],
        files: vec![File::from("r/a".to_string(), 5)],
    };
    assert_eq!(dir.aggregate_size(), Some(5));
}

#[test]
fn aggregate_adds_files_at_every_depth() {
    let deep = Directory {
        path: "r/s/t".to_string(),
        size: 0,
        dirs: vec![],
        files: vec![File::from("r/s/t/c".to_string(), 300)],
    };
    let mid = Directory {
        path: "r/s".to_string(),
        size: 0,
        dirs: vec![deep],
        files: vec![File::from("r/s/b".to_string(), 20)],
    };
    let root = Directory {
        path: "r".to_string(),
        size: 0,
        dirs: vec![mid, Directory::from("r/e".to_string(), 0)],
        files: vec![File::from("r/a".to_string(), 1), File::from("r/z".to_string(), 4000)],
    };
    assert_eq!(root.aggregate_size(), Some(4321));
}

#[test]
fn aggregate_is_the_same_for_reordered_children() {
    let one = Directory {
        path: "r".to_string(),
        size: 0,
        dirs: vec![],
        files: vec![File::from("a".to_string(), 1), File::from("b".to_string(), 2)],
    };
    let other = Directory {
        path: "r".to_string(),
        size: 0,
        dirs: vec![],
        files: vec![File::from("b".to_string(), 2), File::from("a".to_string(), 1)],
    };
    assert_eq!(one.aggregate_size(), other.aggregate_size());
}

#[test]
fn aggregate_that_fills_sixty_four_bits_fits() {
    let dir = Directory {
        path: "r".to_string(),
        size: 0,
        dirs: vec![],
        files: vec![File::from("a".to_string(), u64::MAX - 1), File::from("b".to_string(), 1)],
    };
    assert_eq!(dir.aggregate_size(), Some(u64::MAX));
}

#[test]
fn aggregate_beyond_sixty_four_bits_is_none() {
    let sub = Directory {
        path: "r/s".to_string(),
        size: 0,
        dirs: vec![],
        files: vec![File::from("r/s/b".to_string(), 1)],
    };
    let dir = Directory {
        path: "r".to_string(),
        size: 0,
        dirs: vec![sub],
        files: vec![File::from("a".to_string(), u64::MAX)],
    };
    assert_eq!(dir.aggregate_size(), None);
}

#[test]
fn aggregate_of_a_very_deep_tree() {
    let mut dir = Directory {
        path: "leaf".to_string(),
        size: 0,
        dirs: vec![],
        files: vec![File::from("leaf/f".to_string(), 1)],
    };
    for level in 0..200_000u64 {
        dir = Directory {
            path: "d".to_string(),
            size: 0,
            dirs: vec![dir],
            files: vec![File::from("f".to_string(), level % 3)],
        };
    }
    let total = dir.aggregate_size();
    std::mem::forget(dir);
    assert_eq!(total, Some(1 + 66_667 + 2 * 66_666));
}

#[test]
fn symlink_entry_has_aggregate_size_zero() {
    let entry = FSEntry::from("ln".to_string(), meta(false, false, true, 1 << 40));
    assert_eq!(entry.aggregate_size(), Some(0));
}

#[test]
fn file_entry_has_its_size_as_aggregate_size() {
    let entry = FSEntry::from("f".to_string(), meta(false, true, false, 321));
    assert_eq!(entry.aggregate_size(), Some(321));
}

#[test]
fn directory_entry_has_the_aggregate_size_of_its_tree() {
    let dir = Directory {
        path: "r".to_string(),
        size: 4096,
        dirs: vec![],
        files: vec![File::from("r/a".to_string(), 10), File::from("r/b".to_string(), 20)],
    };
    assert_eq!(FSEntry::Directory(dir).aggregate_size(), Some(30));
}

#[test]
fn entry_path_and_size_for_every_kind() {
    let dir = FSEntry::from("d".to_string(), meta(true, false, false, 4096));
    let file = FSEntry::from("f".to_string(), meta(false, true, false, 5));
    let link = FSEntry::from("l".to_string(), meta(false, false, true, 11));
    assert_eq!((dir.path().as_str(), dir.size()), ("d", 4096));
    assert_eq!((file.path().as_str(), file.size()), ("f", 5));
    assert_eq!((link.path().as_str(), link.size()), ("l", 11));
}
