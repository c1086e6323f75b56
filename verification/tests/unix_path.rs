use seatbelt::unix_path::{
    expand_home_path, file_name_range, has_extension, is_absolute, join, parent, path_eq,
    path_starts_with, with_extension,
};

fn os(value: &str) -> Vec<u8> {
    value.as_bytes().to_vec()
}

#[test]
fn unix_path_join_puts_one_separator_between() {
    assert_eq!(join(b"/a", b"b"), os("/a/b"));
    assert_eq!(join(b"/a/", b"b"), os("/a/b"));
    assert_eq!(join(b"", b"b"), os("b"));
    assert_eq!(join(b"/a", b"/etc"), os("/etc"));
}

#[test]
fn unix_path_parent_drops_the_last_component() {
    assert_eq!(parent(b"/Users/alice"), Some(os("/Users")));
    assert_eq!(parent(b"/Users/alice/"), Some(os("/Users")));
    assert_eq!(parent(b"/Users"), Some(os("/")));
    assert_eq!(parent(b"/"), None);
    assert_eq!(parent(b""), None);
    assert_eq!(parent(b"alice"), Some(os("")));
}

#[test]
fn unix_path_extensions() {
    assert!(has_extension(b"acme.yaml"));
    assert!(!has_extension(b"acme"));
    assert!(!has_extension(b".hidden"));
    assert!(!has_extension(b"dir.d/acme"));
    assert_eq!(with_extension(b"/c/acme", b"yml"), os("/c/acme.yml"));
    assert_eq!(with_extension(b"/c/acme.old", b"yaml"), os("/c/acme.yaml"));
    assert_eq!(file_name_range(b"/c/acme/"), Some((3, 7)));
    assert_eq!(file_name_range(b"/"), None);
}

#[test]
fn unix_path_comparisons_go_by_components() {
    assert!(path_eq(b"/a//b/", b"/a/b"));
    assert!(path_eq(b"/a/./b", b"/a/b"));
    assert!(!path_eq(b"/a/../b", b"/b"));
    assert!(path_starts_with(b"/private/var/folders/x", b"/private/var/folders"));
    assert!(!path_starts_with(b"/private/var/foldersx", b"/private/var/folders"));
    assert!(is_absolute(b"/x"));
    assert!(!is_absolute(b"x"));
}

#[test]
fn unix_path_expand_home() {
    assert_eq!(expand_home_path(b"/Users/alice", b"~"), os("/Users/alice"));
    assert_eq!(expand_home_path(b"/Users/alice", b"~/"), os("/Users/alice"));
    assert_eq!(expand_home_path(b"/Users/alice", b"~/src/pi"), os("/Users/alice/src/pi"));
    assert_eq!(expand_home_path(b"/Users/alice", b"~bob/x"), os("~bob/x"));
    assert_eq!(expand_home_path(b"/Users/alice", b"docs"), os("docs"));
}
