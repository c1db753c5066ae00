use csd_cleaner::path_utils::{normalized_path_key, normalized_path_key_str, normalized_path_starts_with};

#[test]
fn normalized_prefix_respects_path_boundaries() {
    let prefix = normalized_path_key_str(r"C:\foo");
    let child = normalized_path_key_str(r"C:\foo\bar.txt");
    let sibling = normalized_path_key_str(r"C:\foobar\bar.txt");

    assert!(normalized_path_starts_with(&child, &prefix));
    assert!(!normalized_path_starts_with(&sibling, &prefix));
}

#[test]
fn normalized_prefix_matches_equal_paths() {
    let path = normalized_path_key_str(r"C:\Foo\");
    let same = normalized_path_key_str(r"c:/foo");

    assert!(normalized_path_starts_with(&path, &same));
}

#[test]
fn normalized_prefix_handles_drive_root() {
    let root = normalized_path_key_str(r"C:\");
    let child = normalized_path_key_str(r"C:\foo\bar.txt");

    assert!(normalized_path_starts_with(&child, &root));
}

#[test]
fn key_keeps_drive_root_separator() {
    assert_eq!(normalized_path_key(r"C:\"), r"c:\");
    assert_eq!(normalized_path_key(r"C:\Users\\"), r"c:\users");
    assert_eq!(normalized_path_key("D:/Data/Logs/"), r"d:\data\logs");
}

#[test]
fn empty_prefix_matches_nothing() {
    assert!(!normalized_path_starts_with(r"c:\foo", ""));
}

#[test]
fn key_is_idempotent_on_examples() {
    let once = normalized_path_key_str(r"C:/Program Files/App/");
    assert_eq!(normalized_path_key_str(&once), once);
}
