use sarnath::fswatch::make_mt_map;
use sarnath::snapshot::{new_entries_or_modified, FileStamp, Snapshot};

fn stamp(path: &str, modified: i128) -> FileStamp {
    FileStamp { path: String::from(path), modified }
}

fn snapshot_of(entries: &[(&str, i128)]) -> Snapshot {
    let files: Vec<FileStamp> = entries.iter().map(|(p, t)| stamp(p, *t)).collect();
    make_mt_map(&files)
}

#[test]
fn empty_snapshot_has_no_entries() {
    let s = Snapshot::new();
    assert_eq!(s.len(), 0);
    assert_eq!(s.get("a.txt"), None);
}

#[test]
fn record_adds_a_path() {
    let s = Snapshot::new().record(String::from("a.txt"), 17);
    assert_eq!(s.len(), 1);
    assert_eq!(s.get("a.txt"), Some(17));
    assert_eq!(s.get("b.txt"), None);
}

#[test]
fn record_overwrites_a_known_path() {
    let s = Snapshot::new()
        .record(String::from("a.txt"), 17)
        .record(String::from("b.txt"), 18)
        .record(String::from("a.txt"), 99);
    assert_eq!(s.len(), 2);
    assert_eq!(s.get("a.txt"), Some(99));
    assert_eq!(s.get("b.txt"), Some(18));
}

#[test]
fn record_keeps_negative_times() {
    let s = Snapshot::new().record(String::from("old"), -5_000_000_000);
    assert_eq!(s.get("old"), Some(-5_000_000_000));
}

#[test]
fn make_mt_map_records_every_file() {
    let s = snapshot_of(&[("a", 1), ("sub/b", 2), ("sub/deep/c", 3)]);
    assert_eq!(s.len(), 3);
    assert_eq!(s.get("a"), Some(1));
    assert_eq!(s.get("sub/b"), Some(2));
    assert_eq!(s.get("sub/deep/c"), Some(3));
    assert_eq!(s.get("sub"), None);
}

#[test]
fn make_mt_map_lets_the_last_time_stand() {
    let s = snapshot_of(&[("a", 1), ("b", 2), ("a", 3)]);
    assert_eq!(s.len(), 2);
    assert_eq!(s.get("a"), Some(3));
}

#[test]
fn make_mt_map_of_nothing_is_empty() {
    let s = make_mt_map(&Vec::new());
    assert_eq!(s.len(), 0);
}

#[test]
fn equal_snapshots_do_not_differ() {
    let a = snapshot_of(&[("a", 1), ("b", 2)]);
    let b = snapshot_of(&[("a", 1), ("b", 2)]);
    assert!(!new_entries_or_modified(&a, &b));
    assert!(!new_entries_or_modified(&b, &a));
    assert!(!new_entries_or_modified(&a, &a));
}

#[test]
fn empty_snapshots_do_not_differ() {
    assert!(!new_entries_or_modified(&Snapshot::new(), &Snapshot::new()));
}

#[test]
fn a_new_file_is_a_difference() {
    let a = snapshot_of(&[("a", 1), ("b", 2)]);
    let b = snapshot_of(&[("a", 1), ("b", 2), ("new.txt", 3)]);
    assert!(new_entries_or_modified(&a, &b));
}

#[test]
fn a_removed_file_is_a_difference() {
    let a = snapshot_of(&[("a", 1), ("b", 2)]);
    let b = snapshot_of(&[("a", 1)]);
    assert!(new_entries_or_modified(&a, &b));
}

#[test]
fn a_modified_file_is_a_difference() {
    let a = snapshot_of(&[("a", 1), ("b", 2)]);
    let b = snapshot_of(&[("a", 1), ("b", 3)]);
    assert!(new_entries_or_modified(&a, &b));
    assert!(new_entries_or_modified(&b, &a));
}

#[test]
fn a_rename_with_equal_counts_is_a_difference() {
    let a = snapshot_of(&[("keep", 1), ("before", 2)]);
    let b = snapshot_of(&[("keep", 1), ("after", 2)]);
    assert_eq!(a.len(), b.len());
    assert!(new_entries_or_modified(&a, &b));
    assert!(new_entries_or_modified(&b, &a));
}

#[test]
fn traversal_order_does_not_matter() {
    let a = snapshot_of(&[("a", 1), ("b", 2), ("c/d", 3), ("c/e", 4)]);
    let b = snapshot_of(&[("c/e", 4), ("a", 1), ("c/d", 3), ("b", 2)]);
    assert!(!new_entries_or_modified(&a, &b));
    assert!(!new_entries_or_modified(&b, &a));
}

#[test]
fn paths_are_compared_by_their_characters() {
    let a = snapshot_of(&[("données/été.txt", 1)]);
    let b = snapshot_of(&[("donnees/ete.txt", 1)]);
    assert!(new_entries_or_modified(&a, &b));
    assert_eq!(a.get("données/été.txt"), Some(1));
}
