use tracey::paths::{join, normalize};

#[test]
fn the_normal_form_of_a_path() {
    assert_eq!(normalize("/repo//.gitignore"), "/repo/.gitignore");
    assert_eq!(normalize("dir/foo~/"), "dir/foo~");
    assert_eq!(normalize("a///b////c"), "a/b/c");
    assert_eq!(normalize("a/./b/."), "a/b");
    assert_eq!(normalize("./a"), "./a");
    assert_eq!(normalize("."), ".");
    assert_eq!(normalize("/"), "/");
    assert_eq!(normalize("//"), "/");
    assert_eq!(normalize("/."), "/");
    assert_eq!(normalize(""), "");
    assert_eq!(normalize("a/.b/..c/.."), "a/.b/..c/..");
    assert_eq!(normalize("/repo/src/lib.rs"), "/repo/src/lib.rs");
}

#[test]
fn a_normal_form_stays_as_it_is() {
    for path in ["/repo//.gitignore", "dir/foo~/", "a/./b/.", "//", "./a/", "a/.//./b"] {
        let once = normalize(path);
        assert_eq!(normalize(&once), once);
    }
}

#[test]
fn join_puts_a_child_below_a_base() {
    assert_eq!(join("/repo", "src"), "/repo/src");
    assert_eq!(join("/repo/", "src"), "/repo/src");
    assert_eq!(join("/repo", "/abs"), "/abs");
    assert_eq!(join("", "src"), "src");
}
