use s3_browser::text::contains_str;
use s3_browser::{fmt_size, parse_prev_path, Entry, EntryKind, Timestamp};

#[test]
fn parent_paths() {
    assert_eq!(parse_prev_path("a/b/c/"), "a/b/");
    assert_eq!(parse_prev_path("a/b/c"), "a/b/");
    assert_eq!(parse_prev_path("a/b"), "a/");
    assert_eq!(parse_prev_path("a/"), "");
    assert_eq!(parse_prev_path("a"), "");
    assert_eq!(parse_prev_path(""), "");
    assert_eq!(parse_prev_path("/"), "");
    assert_eq!(parse_prev_path("a//b//"), "a/");
    assert_eq!(parse_prev_path("é/ü/"), "é/");
}

#[test]
fn size_text() {
    assert_eq!(fmt_size(0), "/");
    assert_eq!(fmt_size(10), "10");
    assert_eq!(fmt_size(7), "7");
    assert_eq!(fmt_size(1234567890), "1234567890");
    assert_eq!(fmt_size(-5), "-5");
    assert_eq!(fmt_size(i64::MAX), "9223372036854775807");
    assert_eq!(fmt_size(i64::MIN), "-9223372036854775808");
}

#[test]
fn entry_from_directory_prefix() {
    let e = Entry::new("photos/2023/".to_string(), 0, None);
    assert_eq!(e.kind, EntryKind::Directory);
    assert_eq!(e.label, "2023/");
    assert_eq!(e.last_modified, None);
    assert!(e.is_matched);
    assert_eq!(Entry::new("a/".to_string(), 0, None).label, "a/");
}

#[test]
fn entry_from_object_key() {
    let e = Entry::new("photos/2023/cat.jpg".to_string(), 42, Some(Timestamp { secs: 0, nanos: 0 }));
    assert_eq!(e.kind, EntryKind::File);
    assert_eq!(e.label, "cat.jpg");
    assert_eq!(e.size, 42);
    assert_eq!(e.last_modified, Some("1970-01-01T00:00:00Z".to_string()));
    assert_eq!(Entry::new("top".to_string(), 1, None).label, "top");
}

#[test]
fn timestamps_are_formatted() {
    let e = Entry::new("k".to_string(), 1, Some(Timestamp { secs: 1_576_540_098, nanos: 500_000_000 }));
    assert_eq!(e.last_modified, Some("2019-12-16T23:48:18.5Z".to_string()));
    let last = Entry::new("k".to_string(), 1, Some(Timestamp { secs: 253_402_300_799, nanos: 0 }));
    assert_eq!(last.last_modified, Some("9999-12-31T23:59:59Z".to_string()));
    let first = Entry::new("k".to_string(), 1, Some(Timestamp { secs: -62_135_596_800, nanos: 0 }));
    assert_eq!(first.last_modified, Some("0001-01-01T00:00:00Z".to_string()));
}

#[test]
fn unwritable_timestamps_are_absent() {
    let late = Entry::new("k".to_string(), 1, Some(Timestamp { secs: 253_402_300_800, nanos: 0 }));
    assert_eq!(late.last_modified, None);
    let early = Entry::new("k".to_string(), 1, Some(Timestamp { secs: -62_135_596_801, nanos: 0 }));
    assert_eq!(early.last_modified, None);
    let bad = Entry::new("k".to_string(), 1, Some(Timestamp { secs: 0, nanos: 1_000_000_000 }));
    assert_eq!(bad.last_modified, None);
}

#[test]
fn substring_search() {
    assert!(contains_str("abc", "b"));
    assert!(contains_str("abc", ""));
    assert!(contains_str("", ""));
    assert!(contains_str("abc", "abc"));
    assert!(!contains_str("abc", "abcd"));
    assert!(!contains_str("xyz", "b"));
    assert!(!contains_str("abc", "B"));
}
