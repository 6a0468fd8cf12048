use rclone_ignore::matcher::IgnoreMatcher;
use rclone_ignore::snapshot::PathRecord;
use rclone_ignore::walker::{is_pruned, snapshot, WalkEntry};

fn found(is_file: bool, path: &str) -> WalkEntry {
    WalkEntry::Found(PathRecord { is_file, path: path.to_string() })
}

fn matcher(patterns: &[&str]) -> IgnoreMatcher {
    IgnoreMatcher::new(&patterns.iter().map(|p| p.to_string()).collect()).unwrap()
}

#[test]
fn excluded_entries_are_not_tracked() {
    let m = matcher(&["*.tmp"]);
    let s = snapshot(
        &vec![found(false, "/sync"), found(true, "/sync/a.txt"), found(true, "/sync/a.tmp")],
        &m,
    );
    assert_eq!(s.len(), 2);
    assert_eq!(s.kind("/sync"), Some(false));
    assert_eq!(s.kind("/sync/a.txt"), Some(true));
    assert_eq!(s.kind("/sync/a.tmp"), None);
}

#[test]
fn excluded_directory_takes_its_subtree_with_it() {
    let m = matcher(&["*/cache"]);
    let s = snapshot(
        &vec![
            found(false, "/sync"),
            found(false, "/sync/cache"),
            found(true, "/sync/cache/x.bin"),
            found(false, "/sync/cache/deep"),
            found(true, "/sync/cache/deep/y.bin"),
            found(true, "/sync/cached.txt"),
        ],
        &m,
    );
    assert_eq!(s.len(), 2);
    assert!(s.contains("/sync"));
    assert!(s.contains("/sync/cached.txt"));
    assert!(!s.contains("/sync/cache"));
    assert!(!s.contains("/sync/cache/x.bin"));
    assert!(!s.contains("/sync/cache/deep/y.bin"));
}

#[test]
fn hidden_entries_are_tracked() {
    let m = matcher(&[]);
    let s = snapshot(&vec![found(false, "/sync/.git"), found(true, "/sync/.env")], &m);
    assert_eq!(s.kind("/sync/.git"), Some(false));
    assert_eq!(s.kind("/sync/.env"), Some(true));
}

#[test]
fn unreadable_entries_are_skipped_and_the_walk_goes_on() {
    let m = matcher(&[]);
    let s = snapshot(
        &vec![
            found(true, "/sync/a"),
            WalkEntry::Unreadable,
            found(true, "/sync/b"),
            WalkEntry::Unreadable,
        ],
        &m,
    );
    assert_eq!(s.len(), 2);
    assert!(s.contains("/sync/a"));
    assert!(s.contains("/sync/b"));
}

#[test]
fn a_path_found_twice_is_tracked_once() {
    let m = matcher(&[]);
    let s = snapshot(&vec![found(true, "/sync/a"), found(false, "/sync/a")], &m);
    assert_eq!(s.len(), 1);
    assert_eq!(s.kind("/sync/a"), Some(true));
}

#[test]
fn empty_walk_tracks_nothing() {
    let m = matcher(&[]);
    assert_eq!(snapshot(&vec![], &m).len(), 0);
    assert_eq!(snapshot(&vec![WalkEntry::Unreadable], &m).len(), 0);
}

#[test]
fn is_pruned_looks_at_every_directory_above() {
    let m = matcher(&["*/build", "*.tmp"]);
    assert!(is_pruned(&m, "/sync/build"));
    assert!(is_pruned(&m, "/sync/build/out/a.o"));
    assert!(is_pruned(&m, "/sync/x.tmp"));
    assert!(is_pruned(&m, "/sync/dir.tmp/file"));
    assert!(is_pruned(&m, "C:\\sync\\dir.tmp\\file"));
    assert!(!is_pruned(&m, "/sync/builder/out"));
    assert!(!is_pruned(&m, "/sync/a.txt"));
    assert!(!is_pruned(&m, ""));
}
