use sapphillon_core::check_path::{paths_cover_as_set, paths_cover_by_ancestor};

#[test]
fn ancestor_covers_child() {
    assert!(paths_cover_by_ancestor(&["/foo"], &["/foo/bar/baz"]));
}

#[test]
fn sibling_does_not_cover() {
    assert!(!paths_cover_by_ancestor(&["/foo/other"], &["/foo/bar"]));
}

#[test]
fn check_path_empty_b_always_true() {
    let empty: &[&str] = &[];
    assert!(paths_cover_by_ancestor(&["/foo"], empty));
    assert!(paths_cover_by_ancestor(empty, empty));
}

#[test]
fn empty_a_nonempty_b_false() {
    let empty: &[&str] = &[];
    assert!(!paths_cover_by_ancestor(empty, &["/foo"]));
}

#[test]
fn dot_dot_normalized() {
    assert!(paths_cover_by_ancestor(&["/foo"], &["/foo/bar/../baz"]));
}

#[test]
fn dot_dot_can_escape_the_ancestor() {
    assert!(!paths_cover_by_ancestor(&["/foo"], &["/foo/../etc/passwd"]));
}

#[test]
fn components_not_characters() {
    assert!(!paths_cover_by_ancestor(&["/foo"], &["/foobar"]));
}

#[test]
fn relative_and_absolute_do_not_mix() {
    assert!(!paths_cover_by_ancestor(&["foo"], &["/foo/bar"]));
    assert!(!paths_cover_by_ancestor(&["/foo"], &["foo/bar"]));
    assert!(paths_cover_by_ancestor(&["foo"], &["foo/bar"]));
    assert!(paths_cover_by_ancestor(&[""], &["/anything"]));
    assert!(paths_cover_by_ancestor(&["/"], &["/anything"]));
}

#[test]
fn dots_slashes_and_leading_parent() {
    assert!(paths_cover_by_ancestor(&["/a/./b/"], &["//a//b/c"]));
    assert!(paths_cover_by_ancestor(&["/"], &["/.."]));
    assert!(paths_cover_by_ancestor(&["./x"], &["x/y"]));
}

#[test]
fn coverage_is_reflexive_and_transitive_on_examples() {
    let a = ["/srv"];
    let b = ["/srv/app", "/srv/data"];
    let c = ["/srv/app/log", "/srv/data/x/y"];
    assert!(paths_cover_by_ancestor(&b, &b));
    assert!(paths_cover_by_ancestor(&a, &b));
    assert!(paths_cover_by_ancestor(&b, &c));
    assert!(paths_cover_by_ancestor(&a, &c));
}

#[test]
fn cover_as_set() {
    assert!(paths_cover_as_set(&["/a", "/b"], &["/b/", "/a/."]));
    assert!(!paths_cover_as_set(&["/a"], &["/a/b"]));
    assert_eq!(
        paths_cover_as_set(&["/x", "/y/z"], &["/y/z", "/x/"]),
        paths_cover_as_set(&["/y/z", "/x/"], &["/x", "/y/z"])
    );
}

#[test]
fn a_path_and_its_normal_form_cover_each_other() {
    assert!(paths_cover_as_set(&["/a/./b/../c//"], &["/a/c"]));
    assert!(paths_cover_as_set(&["x/../y/."], &["y"]));
    assert!(paths_cover_as_set(&["/.."], &["/"]));
    assert!(!paths_cover_as_set(&["a"], &["/a"]));
}

#[test]
fn backslashes_and_drive_letters_are_ordinary_characters() {
    assert!(!paths_cover_by_ancestor(&["C:\\data"], &["C:\\data\\file"]));
    assert!(paths_cover_by_ancestor(&["C:"], &["C:/data"]));
}
