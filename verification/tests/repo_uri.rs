use gitblog::repo_uri::{
    RepoUriError, UrlScheme, file_url_for_path, file_url_to_path, has_remote_scheme_prefix,
    parse_git_url,
};

#[test]
fn parse_repo_url_https_unchanged() {
    let url = parse_git_url("https://example.com/repo.git").unwrap();
    assert!(matches!(url.scheme, UrlScheme::Http | UrlScheme::Https));
}

#[test]
fn parse_https_unchanged() {
    let url = parse_git_url("https://example.com/repo.git").unwrap();
    assert!(matches!(url.scheme, UrlScheme::Https));
    assert_eq!(url.host.as_deref(), Some("example.com"));
}

#[test]
fn remote_prefixes_are_recognised() {
    assert!(has_remote_scheme_prefix("https://example.com/repo.git"));
    assert!(has_remote_scheme_prefix("git@github.com:alice/lab.git"));
    assert!(has_remote_scheme_prefix("ssh://host/repo"));
    assert!(!has_remote_scheme_prefix("/tmp/my-blog"));
    assert!(!has_remote_scheme_prefix("file:///tmp/my-blog"));
}

#[test]
fn file_url_path_roundtrip() {
    let url = parse_git_url(&file_url_for_path("/tmp/my-blog")).unwrap();
    assert!(matches!(url.scheme, UrlScheme::File));
    assert_eq!(file_url_to_path(&url).unwrap(), "/tmp/my-blog");
}

#[test]
fn file_url_to_path_refuses_remote_urls() {
    let url = parse_git_url("https://example.com/repo.git").unwrap();
    assert!(matches!(file_url_to_path(&url), Err(RepoUriError::NotFileScheme)));
    assert_eq!(
        RepoUriError::NotFileScheme.message(),
        "expected a file:// repository URL"
    );
}
