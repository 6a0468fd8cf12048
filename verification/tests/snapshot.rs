use rclone_ignore::snapshot::{PathRecord, Snapshot};

fn rec(is_file: bool, path: &str) -> PathRecord {
    PathRecord { is_file, path: path.to_string() }
}

#[test]
fn new_snapshot_tracks_nothing() {
    let s = Snapshot::new();
    assert_eq!(s.len(), 0);
    assert_eq!(s.kind("/sync/a"), None);
    assert!(!s.contains("/sync/a"));
}

#[test]
fn insert_tracks_a_path_with_its_kind() {
    let mut s = Snapshot::new();
    assert!(s.insert(rec(true, "/sync/a.txt")));
    assert!(s.insert(rec(false, "/sync/dir")));
    assert_eq!(s.len(), 2);
    assert_eq!(s.kind("/sync/a.txt"), Some(true));
    assert_eq!(s.kind("/sync/dir"), Some(false));
    assert_eq!(s.kind("/sync/other"), None);
    assert!(s.contains("/sync/dir"));
}

#[test]
fn insert_refuses_a_path_twice() {
    let mut s = Snapshot::new();
    assert!(s.insert(rec(true, "/sync/a")));
    assert!(!s.insert(rec(false, "/sync/a")));
    assert_eq!(s.len(), 1);
    assert_eq!(s.kind("/sync/a"), Some(true));
}

#[test]
fn from_records_keeps_the_first_record_of_a_path() {
    let s = Snapshot::from_records(vec![
        rec(true, "/sync/a"),
        rec(false, "/sync/b"),
        rec(false, "/sync/a"),
        rec(true, "/sync/c"),
    ]);
    assert_eq!(s.len(), 3);
    assert_eq!(s.kind("/sync/a"), Some(true));
    assert_eq!(s.kind("/sync/b"), Some(false));
    assert_eq!(s.kind("/sync/c"), Some(true));
    assert_eq!(s.record(0), &rec(true, "/sync/a"));
    assert_eq!(s.record(1), &rec(false, "/sync/b"));
    assert_eq!(s.record(2), &rec(true, "/sync/c"));
}

#[test]
fn from_records_of_nothing_is_empty() {
    let s = Snapshot::from_records(vec![]);
    assert_eq!(s.len(), 0);
}

#[test]
fn paths_differ_by_every_character() {
    let mut s = Snapshot::new();
    s.insert(rec(true, "/sync/a"));
    assert!(!s.contains("/sync/A"));
    assert!(!s.contains("/sync/a/"));
    assert!(!s.contains("/sync"));
}
