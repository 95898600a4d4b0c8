use sarnath::errors::Error;
use sarnath::fswatch::{make_mt_map, DirItem, FsWatch, Walk};
use sarnath::signals::Signal;
use sarnath::snapshot::{new_entries_or_modified, FileStamp, Snapshot};

fn file(name: &str, modified: i128) -> DirItem {
    DirItem { name: String::from(name), is_dir: false, modified }
}

fn dir(name: &str) -> DirItem {
    DirItem { name: String::from(name), is_dir: true, modified: 0 }
}

fn pairs(files: &[FileStamp]) -> Vec<(String, i128)> {
    files.iter().map(|f| (f.path.clone(), f.modified)).collect()
}

fn five_files(extra: Option<&str>) -> Snapshot {
    let mut files = Vec::new();
    for i in 0..5 {
        files.push(FileStamp { path: format!("test_{}.txt", i), modified: 100 + i as i128 });
    }
    if let Some(name) = extra {
        files.push(FileStamp { path: String::from(name), modified: 200 });
    }
    make_mt_map(&files)
}

fn watch(dirpath: &str, baseline: Snapshot) -> FsWatch {
    match FsWatch::new(String::from(dirpath), Some(baseline)) {
        Ok(w) => w,
        Err(e) => panic!("Failed to initialize FsWatch with error: {}", e.message()),
    }
}

#[test]
fn test_fswatch_poll() {
    let mut fswatch = watch("./tmp-1", five_files(None));
    let signal = fswatch.poll(five_files(Some("new.txt")));
    assert_eq!(signal.unwrap(), Signal::FsMod)
}

#[test]
fn new_refuses_a_missing_root() {
    match FsWatch::new(String::from("./nowhere"), None) {
        Err(e) => assert_eq!(e, Error::PathProblem),
        Ok(_) => panic!("a root that could not be examined was accepted"),
    }
}

#[test]
fn new_keeps_root_and_baseline() {
    let w = watch("./tmp-2", five_files(None));
    assert_eq!(w.dirpath(), "./tmp-2");
    assert_eq!(w.mod_times().len(), 5);
    assert_eq!(w.mod_times().get("test_3.txt"), Some(103));
}

#[test]
fn a_new_file_is_announced_exactly_once() {
    let mut w = watch("./tmp-3", five_files(None));
    assert_eq!(w.poll(five_files(Some("new.txt"))), Some(Signal::FsMod));
    assert_eq!(w.mod_times().len(), 6);
    assert_eq!(w.mod_times().get("new.txt"), Some(200));
    assert_eq!(w.poll(five_files(Some("new.txt"))), None);
    assert_eq!(w.poll(five_files(Some("new.txt"))), None);
}

#[test]
fn unchanged_polls_are_quiet_and_keep_the_snapshot() {
    let mut w = watch("./tmp-4", five_files(None));
    for _ in 0..10 {
        assert_eq!(w.poll(five_files(None)), None);
        assert!(!new_entries_or_modified(w.mod_times(), &five_files(None)));
        assert_eq!(w.dirpath(), "./tmp-4");
    }
}

#[test]
fn a_rename_with_equal_counts_is_announced() {
    let before = make_mt_map(&vec![
        FileStamp { path: String::from("a"), modified: 1 },
        FileStamp { path: String::from("keep"), modified: 2 },
    ]);
    let after = make_mt_map(&vec![
        FileStamp { path: String::from("b"), modified: 1 },
        FileStamp { path: String::from("keep"), modified: 2 },
    ]);
    let mut w = watch(".", before);
    assert_eq!(w.poll(after), Some(Signal::FsMod));
    assert_eq!(w.mod_times().get("a"), None);
    assert_eq!(w.mod_times().get("b"), Some(1));
}

#[test]
fn a_removed_file_is_announced() {
    let mut w = watch(".", five_files(Some("new.txt")));
    assert_eq!(w.poll(five_files(None)), Some(Signal::FsMod));
    assert_eq!(w.mod_times().len(), 5);
}

#[test]
fn walk_of_a_root_that_is_no_directory_finds_nothing() {
    let walk = Walk::begin(false);
    assert_eq!(walk.next_dir(), None);
    assert!(walk.into_found().is_empty());
}

#[test]
fn walk_starts_at_the_root() {
    let walk = Walk::begin(true);
    assert_eq!(walk.next_dir(), Some(String::new()));
}

#[test]
fn walk_records_files_and_descends_into_directories() {
    let mut walk = Walk::begin(true);
    walk.visit(&vec![file("a.txt", 1), dir("sub"), file("b.txt", 2)]);
    assert_eq!(walk.next_dir(), Some(String::from("sub")));
    walk.visit(&vec![dir("deep"), file("c.txt", 3)]);
    assert_eq!(walk.next_dir(), Some(String::from("sub/deep")));
    walk.visit(&vec![file("d.txt", 4)]);
    assert_eq!(walk.next_dir(), None);
    let found = walk.into_found();
    assert_eq!(
        pairs(&found),
        vec![
            (String::from("a.txt"), 1),
            (String::from("b.txt"), 2),
            (String::from("sub/c.txt"), 3),
            (String::from("sub/deep/d.txt"), 4),
        ]
    );
}

#[test]
fn walk_lists_the_directory_found_last_first() {
    let mut walk = Walk::begin(true);
    walk.visit(&vec![dir("one"), dir("two")]);
    assert_eq!(walk.next_dir(), Some(String::from("two")));
    walk.visit(&vec![file("x", 7)]);
    assert_eq!(walk.next_dir(), Some(String::from("one")));
    walk.visit(&Vec::new());
    assert_eq!(walk.next_dir(), None);
    assert_eq!(pairs(&walk.into_found()), vec![(String::from("two/x"), 7)]);
}

#[test]
fn walk_never_records_a_directory() {
    let mut walk = Walk::begin(true);
    walk.visit(&vec![dir("only")]);
    walk.visit(&Vec::new());
    assert_eq!(walk.next_dir(), None);
    assert!(walk.into_found().is_empty());
}

#[test]
fn a_finished_walk_ignores_further_listings() {
    let mut walk = Walk::begin(true);
    walk.visit(&vec![file("a", 1)]);
    walk.visit(&vec![file("b", 2), dir("c")]);
    assert_eq!(walk.next_dir(), None);
    assert_eq!(pairs(&walk.into_found()), vec![(String::from("a"), 1)]);
}

#[test]
fn walk_feeds_the_snapshot() {
    let mut walk = Walk::begin(true);
    walk.visit(&vec![file("a.txt", 1), dir("sub")]);
    walk.visit(&vec![file("a.txt", 2)]);
    let snapshot = make_mt_map(&walk.into_found());
    assert_eq!(snapshot.len(), 2);
    assert_eq!(snapshot.get("a.txt"), Some(1));
    assert_eq!(snapshot.get("sub/a.txt"), Some(2));
}
