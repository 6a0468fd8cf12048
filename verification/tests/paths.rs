use rclone_ignore::paths::{chars_of, normalize_separators, upload_path};

#[test]
fn file_in_preserve_form_keeps_its_relative_path() {
    assert_eq!(upload_path("/sync", "/sync/a/b.txt", true, true), "a/b.txt");
}

#[test]
fn file_in_parent_form_is_addressed_by_its_directory() {
    assert_eq!(upload_path("/sync", "/sync/a/b.txt", true, false), "a");
    assert_eq!(upload_path("/sync", "/sync/a/b/c.txt", true, false), "a/b");
}

#[test]
fn file_directly_under_root_has_empty_parent() {
    assert_eq!(upload_path("/sync", "/sync/b.txt", true, false), "");
}

#[test]
fn directory_in_preserve_form_gets_trailing_slash() {
    assert_eq!(upload_path("/sync", "/sync/dir", false, true), "dir/");
    assert_eq!(upload_path("/sync", "/sync/a/dir", false, true), "a/dir/");
}

#[test]
fn directory_in_parent_form_is_itself() {
    assert_eq!(upload_path("/sync", "/sync/a/dir", false, false), "a/dir");
}

#[test]
fn root_itself_translates_to_nothing() {
    assert_eq!(upload_path("/sync", "/sync", true, true), "");
    assert_eq!(upload_path("/sync", "/sync", false, true), "/");
    assert_eq!(upload_path("/sync", "/sync/", false, false), "");
}

#[test]
fn backslashes_become_forward_slashes() {
    assert_eq!(upload_path("C:\\sync", "C:\\sync\\a\\b.txt", true, true), "a/b.txt");
    assert_eq!(upload_path("C:\\sync", "C:\\sync\\a\\b.txt", true, false), "a");
    assert_eq!(upload_path("C:\\sync", "C:/sync/a\\dir", false, true), "a/dir/");
}

#[test]
fn root_with_trailing_separator_is_stripped_whole() {
    assert_eq!(upload_path("/sync/", "/sync/a.txt", true, true), "a.txt");
}

#[test]
fn repeated_separators_after_root_are_skipped() {
    assert_eq!(upload_path("/sync", "/sync//a.txt", true, true), "a.txt");
}

#[test]
fn path_outside_root_keeps_its_components() {
    assert_eq!(upload_path("/sync", "/other/x.txt", true, true), "/other/x.txt");
    assert_eq!(upload_path("/sync", "/syncx/a.txt", true, true), "/syncx/a.txt");
    assert_eq!(upload_path("/sync", "/sy", true, true), "/sy");
}

#[test]
fn translating_twice_changes_nothing() {
    let cases = vec!["/sync/a/b.txt", "/sync/a", "/sync", "/other/x", "/sync\\a\\b", "rel/p"];
    for path in cases {
        let once = upload_path("/sync", path, true, true);
        let twice = upload_path("/sync", &once, true, true);
        assert_eq!(once, twice);
    }
}

#[test]
fn relative_root_can_break_stability() {
    let once = upload_path("a", "a/a/b", true, true);
    assert_eq!(once, "a/b");
    assert_eq!(upload_path("a", &once, true, true), "b");
}

#[test]
fn normalize_separators_replaces_each_backslash() {
    assert_eq!(normalize_separators("a\\b/c\\\\d"), "a/b/c//d");
    assert_eq!(normalize_separators(""), "");
    assert_eq!(normalize_separators("plain"), "plain");
}

#[test]
fn chars_of_lists_characters_in_order() {
    assert_eq!(chars_of("a/é"), vec!['a', '/', 'é']);
    assert_eq!(chars_of(""), Vec::<char>::new());
}

#[test]
fn non_ascii_paths_translate_by_character() {
    assert_eq!(upload_path("/sÿnc", "/sÿnc/dïr/ö.txt", true, true), "dïr/ö.txt");
    assert_eq!(upload_path("/sÿnc", "/sÿnc/dïr/ö.txt", true, false), "dïr");
}

#[test]
fn repeated_separator_before_the_file_name_is_one() {
    assert_eq!(upload_path("/sync", "/sync/a//b.txt", true, false), "a");
    assert_eq!(upload_path("/sync", "/sync/a///b.txt", true, false), "a");
    assert_eq!(upload_path("/sync", "/sync/a\\/b.txt", true, false), "a");
    assert_eq!(upload_path("/sync", "/sync/a/b//c.txt", true, false), "a/b");
    assert_eq!(upload_path("/sync", "/sync/a//b.txt", true, true), "a//b.txt");
}

#[test]
fn separators_at_the_end_of_a_path_are_dropped() {
    assert_eq!(upload_path("/sync", "/sync/dir/", false, true), "dir/");
    assert_eq!(upload_path("/sync", "/sync/dir//", false, false), "dir");
    assert_eq!(upload_path("/sync", "/sync/a/dir\\", false, true), "a/dir/");
    assert_eq!(upload_path("/sync", "/sync/a/b.txt/", true, false), "a");
    assert_eq!(upload_path("/sync", "/sync/a/b.txt/", true, true), "a/b.txt");
    assert_eq!(upload_path("/sync", "/other/x/", true, true), "/other/x");
}

#[test]
fn only_a_directory_in_preserve_form_ends_with_a_slash() {
    let paths = vec!["/sync/a", "/sync/a/b", "/sync/a//b", "/sync/a/", "/sync/a/b//"];
    for path in paths {
        assert!(upload_path("/sync", path, false, true).ends_with('/'));
        assert!(!upload_path("/sync", path, true, true).ends_with('/'));
        assert!(!upload_path("/sync", path, true, false).ends_with('/'));
        assert!(!upload_path("/sync", path, false, false).ends_with('/'));
    }
}
