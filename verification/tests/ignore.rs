use gitblog::{ignore_check_would_panic, ignore_files, path_is_ignored};

#[test]
fn path_is_ignored_matches_ignore_patterns() {
    assert!(path_is_ignored("draft", true));
    assert!(path_is_ignored("draft/post.md", false));
    assert!(path_is_ignored("LICENSE.md", false));
    assert!(!path_is_ignored("posts/post.md", false));
}

#[test]
fn ignore_patterns_are_draft_and_license() {
    assert_eq!(ignore_files(), vec!["draft/".to_string(), "LICENSE.md".to_string()]);
    assert!(ignore_check_would_panic("///x"));
    assert!(!ignore_check_would_panic("posts/x.md"));
}
