use project_switch::paths::{base_name, join};
use std::path::Path;

#[test]
fn base_name_is_the_last_segment() {
    assert_eq!(base_name("/bin/bash"), Some("bash".to_string()));
    assert_eq!(base_name("/usr/local/bin/zsh"), Some("zsh".to_string()));
    assert_eq!(base_name("bash"), Some("bash".to_string()));
    assert_eq!(base_name("/home/u/foo"), Some("foo".to_string()));
    assert_eq!(base_name("rel/dir"), Some("dir".to_string()));
}

#[test]
fn base_name_passes_over_trailing_separators_and_dots() {
    assert_eq!(base_name("/home/u/foo/"), Some("foo".to_string()));
    assert_eq!(base_name("/home/u/foo///"), Some("foo".to_string()));
    assert_eq!(base_name("/home/u/foo/."), Some("foo".to_string()));
    assert_eq!(base_name("/home/u/foo/./"), Some("foo".to_string()));
    assert_eq!(base_name("foo/././/."), Some("foo".to_string()));
    assert_eq!(base_name("./foo"), Some("foo".to_string()));
}

#[test]
fn base_name_of_a_path_without_one_is_none() {
    assert_eq!(base_name(""), None);
    assert_eq!(base_name("/"), None);
    assert_eq!(base_name("//"), None);
    assert_eq!(base_name("."), None);
    assert_eq!(base_name("./"), None);
    assert_eq!(base_name("/."), None);
    assert_eq!(base_name(".."), None);
    assert_eq!(base_name("/home/u/.."), None);
    assert_eq!(base_name("/home/u/../"), None);
    assert_eq!(base_name("foo/../."), None);
}

#[test]
fn base_name_keeps_names_that_hold_dots() {
    assert_eq!(base_name("/a/..."), Some("...".to_string()));
    assert_eq!(base_name("/a/.hidden"), Some(".hidden".to_string()));
    assert_eq!(base_name("/a/b.tar.gz"), Some("b.tar.gz".to_string()));
    assert_eq!(base_name("/a/..b"), Some("..b".to_string()));
    assert_eq!(base_name("/a/b."), Some("b.".to_string()));
}

#[test]
fn base_name_agrees_with_std() {
    for p in [
        "", "/", ".", "..", "a", "/a", "a/", "a/.", "a/..", "./a", "../a", "a//b", "a/b/./",
        "/usr/bin/env", "é/ü", "a/.b", "a/b..", "...", "/./", "/../x/",
    ] {
        let expected =
            Path::new(p).file_name().map(|n| n.to_str().expect("valid text").to_string());
        assert_eq!(base_name(p), expected, "for {:?}", p);
    }
}

#[test]
fn join_puts_one_separator_between() {
    assert_eq!(join("/home/u/.config", "project-switch"), "/home/u/.config/project-switch");
    assert_eq!(join("/home/u/.config/", "project-switch"), "/home/u/.config/project-switch");
    assert_eq!(join("rel", "x"), "rel/x");
    assert_eq!(join("/", "x"), "/x");
}

#[test]
fn join_with_nothing() {
    assert_eq!(join("", "x"), "x");
    assert_eq!(join("a", ""), "a/");
    assert_eq!(join("a/", ""), "a/");
    assert_eq!(join("", ""), "");
}

#[test]
fn join_keeps_an_absolute_path() {
    assert_eq!(join("/home/u", "/etc/x"), "/etc/x");
    assert_eq!(join("", "/"), "/");
}

#[test]
fn join_agrees_with_std() {
    for (base, rel) in [
        ("/a", "b"), ("/a/", "b"), ("", "b"), ("a", ""), ("/a", "/b"), ("a//", "b/c"), ("/", ""),
        ("é", "ü"),
    ] {
        let expected = Path::new(base).join(rel);
        assert_eq!(join(base, rel), expected.to_str().expect("valid text"));
    }
}
