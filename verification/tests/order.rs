use gitblog::order::path_less;

#[test]
fn paths_compare_by_component() {
    assert!(path_less("a/a", "a//b"));
    assert!(!path_less("a//b", "a/a"));
    assert!(!path_less("a/./b", "a/b"));
    assert!(!path_less("a/b", "a/./b"));
    assert!(path_less("a/b", "a-b"));
    assert!(path_less("a/b", "a/b/c"));
    assert!(path_less("/z", "a"));
    assert!(path_less("./z", "a"));
    assert!(path_less("../x", "a"));
}
