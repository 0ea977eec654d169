use rdu::error::{ErrorKind, ScanError};
use rdu::report::Line;

#[test]
fn entry_line_text() {
    let line = Line::Entry { depth: 1, path: "root/a".to_string(), size: 10 };
    assert_eq!(line.to_text(), "  root/a - 10");
}

#[test]
fn entry_line_at_root_has_no_indent() {
    let line = Line::Entry { depth: 0, path: "a.bin".to_string(), size: 0 };
    assert_eq!(line.to_text(), "a.bin - 0");
}

#[test]
fn announce_line_text() {
    let line = Line::Announce { depth: 2, path: "root/sub/x".to_string() };
    assert_eq!(line.to_text(), "    root/sub/x/");
}

#[test]
fn summary_line_text() {
    let line = Line::Summary { depth: 1, path: "root/sub".to_string(), local: 20 };
    assert_eq!(line.to_text(), "  root/sub/ - 20");
}

#[test]
fn dirsum_line_text() {
    assert_eq!(Line::DirSum { total: 20 }.to_text(), "Dirsum: 20");
}

#[test]
fn total_line_text() {
    assert_eq!(Line::Total { total: 30 }.to_text(), "Total: 30");
}

#[test]
fn decimal_of_largest_total() {
    assert_eq!(Line::Total { total: u64::MAX }.to_text(), "Total: 18446744073709551615");
}

#[test]
fn decimal_keeps_inner_zeros() {
    assert_eq!(Line::DirSum { total: 1002003 }.to_text(), "Dirsum: 1002003");
    assert_eq!(Line::DirSum { total: 9 }.to_text(), "Dirsum: 9");
    assert_eq!(Line::DirSum { total: 10 }.to_text(), "Dirsum: 10");
}

#[test]
fn message_names_path_kind_and_cause() {
    let error = ScanError::new(
        ErrorKind::DirectoryUnreadable,
        "root/secret".to_string(),
        "permission denied".to_string(),
    );
    assert_eq!(error.message(), "root/secret: directory unreadable (permission denied)");
}

#[test]
fn message_without_cause() {
    let error = ScanError::internal(ErrorKind::DeepRecursionLimit, "a/b".to_string());
    assert_eq!(error.message(), "a/b: directory nesting exceeds the limit");
}

#[test]
fn message_for_each_kind() {
    let text = |kind| ScanError::internal(kind, "p".to_string()).message();
    assert_eq!(text(ErrorKind::PathNotFound), "p: path not found");
    assert_eq!(text(ErrorKind::MetadataUnavailable), "p: metadata unavailable");
    assert_eq!(text(ErrorKind::DirectoryUnreadable), "p: directory unreadable");
    assert_eq!(text(ErrorKind::TotalOverflow), "p: byte total exceeds 64 bits");
}

#[test]
fn clone_of_an_error_is_equal() {
    let error = ScanError::new(ErrorKind::PathNotFound, "p".to_string(), "c".to_string());
    assert_eq!(error.clone(), error);
}
