use bfs_find::paths::{base_name, join_path};

#[test]
fn base_name_of_nested_path() {
    assert_eq!(base_name("root/a.txt"), "a.txt");
    assert_eq!(base_name("root/sub/b.txt"), "b.txt");
}

#[test]
fn base_name_of_plain_name() {
    assert_eq!(base_name("root"), "root");
    assert_eq!(base_name("a.txt"), "a.txt");
}

#[test]
fn base_name_with_trailing_slash() {
    assert_eq!(base_name("root/"), "root");
    assert_eq!(base_name("root//"), "root");
}

#[test]
fn base_name_without_extractable_name_is_empty() {
    assert_eq!(base_name("/"), "");
    assert_eq!(base_name(""), "");
    assert_eq!(base_name("."), "");
    assert_eq!(base_name(".."), "");
    assert_eq!(base_name("a/.."), "");
}

#[test]
fn base_name_skips_empty_segments() {
    assert_eq!(base_name("a//b"), "b");
    assert_eq!(base_name("/etc"), "etc");
}

#[test]
fn join_inserts_separator() {
    assert_eq!(join_path("root", "a.txt"), "root/a.txt");
    assert_eq!(join_path("root/sub", "c"), "root/sub/c");
}

#[test]
fn join_keeps_existing_separator() {
    assert_eq!(join_path("root/", "a.txt"), "root/a.txt");
    assert_eq!(join_path("/", "etc"), "/etc");
}

#[test]
fn join_with_empty_parent() {
    assert_eq!(join_path("", "a.txt"), "a.txt");
}
