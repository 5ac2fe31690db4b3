use gitblog::repo_uri::parse_git_url;
use gitblog::user_profile::{
    GithubUserProfile, MetaElement, bio_from_replaced, OG_DESCRIPTION_BOILERPLATE_SUFFIX, UpdateProfileError,
    UserProfileError, bio_from_description, check_avatar_response, check_http_status,
    fallback_username, fetch_remote_candidates, github_metas, github_owner_for_url,
    github_owner_from_git_path, is_github_dot_com_host, required_meta,
    strip_github_profile_og_suffix,
};

fn meta(attrs: &[(&str, &str)]) -> MetaElement {
    MetaElement {
        name: "meta".to_string(),
        attrs: attrs.iter().map(|(k, v)| (k.to_string(), v.to_string())).collect(),
    }
}

#[test]
fn strip_suffix_removes_repository_boilerplate() {
    let raw = "Weekend handyman. HenriTEL has 15 repositories available. Follow their code on GitHub.";
    assert_eq!(strip_github_profile_og_suffix(raw), "Weekend handyman");
}

#[test]
fn strip_suffix_leaves_bio_without_boilerplate_unchanged() {
    assert_eq!(strip_github_profile_og_suffix("Only a short bio."), "Only a short bio.");
}

#[test]
fn strip_suffix_handles_various_repo_counts() {
    let raw = "Builder. HenriTEL has 28 repositories available. Follow their code on GitHub.";
    assert_eq!(strip_github_profile_og_suffix(raw), "Builder");
    let pattern = regex::Regex::new(OG_DESCRIPTION_BOILERPLATE_SUFFIX).expect("pattern");
    assert!(
        pattern.is_match("x. HenriTEL has 0 repositories available. Follow their code on GitHub."),
        "digits should match with \\d+"
    );
}

#[test]
fn github_owner_from_https_style_path() {
    assert_eq!(github_owner_from_git_path(b"/HenriTEL/gitblog.git").unwrap(), "HenriTEL");
}

#[test]
fn github_owner_from_scp_style_path() {
    assert_eq!(github_owner_from_git_path(b"HenriTEL/gitblog").unwrap(), "HenriTEL");
}

#[test]
fn github_owner_strips_dot_git_only_on_segment() {
    assert_eq!(github_owner_from_git_path(b"org-name/repo.name.git").unwrap(), "org-name");
}

#[test]
fn github_owner_errors() {
    assert!(matches!(github_owner_from_git_path(b"/"), Err(UpdateProfileError::MissingRepoOwner)));
    assert!(matches!(github_owner_from_git_path(b".git/x"), Err(UpdateProfileError::MissingRepoOwner)));
    assert!(matches!(
        github_owner_from_git_path(&[0xff, 0xfe]),
        Err(UpdateProfileError::NonUtf8RepoPath)
    ));
    assert_eq!(github_owner_from_git_path(b"a.git.git/b").unwrap(), "a");
}

#[test]
fn parsed_https_and_ssh_github_urls_yield_same_owner() {
    let https = parse_git_url("https://github.com/alice/lab.git").unwrap();
    let ssh = parse_git_url("git@github.com:alice/lab.git").unwrap();
    assert_eq!(github_owner_from_git_path(&https.path).unwrap(), "alice");
    assert_eq!(github_owner_from_git_path(&ssh.path).unwrap(), "alice");
    assert_eq!(github_owner_for_url(&https).unwrap(), "alice");
    assert_eq!(github_owner_for_url(&ssh).unwrap(), "alice");
}

#[test]
fn profile_owner_needs_github_over_http_or_ssh() {
    let gitlab = parse_git_url("https://gitlab.com/alice/lab.git").unwrap();
    match github_owner_for_url(&gitlab) {
        Err(UpdateProfileError::UnsupportedHost(h)) => assert_eq!(h, "gitlab.com"),
        other => panic!("unexpected {:?}", other.is_ok()),
    }
    let local = parse_git_url("file:///tmp/blog").unwrap();
    match github_owner_for_url(&local) {
        Err(UpdateProfileError::UnsupportedRepositoryScheme(s)) => assert_eq!(s, "file"),
        other => panic!("unexpected {:?}", other.is_ok()),
    }
}

#[test]
fn is_github_host_accepts_www() {
    assert!(is_github_dot_com_host("github.com"));
    assert!(is_github_dot_com_host("WWW.GITHUB.COM"));
    assert!(is_github_dot_com_host("www.github.com"));
    assert!(!is_github_dot_com_host("gitlab.com"));
}

#[test]
fn parse_fixture_metas_standard_order() {
    let elements = vec![
        meta(&[("property", "og:description"), ("content", "Weekend handyman. HenriTEL has 15 repositories available. Follow their code on GitHub.")]),
        meta(&[("property", "og:image"), ("content", "https://avatars.githubusercontent.com/u/5563535?v=4?s=400")]),
        meta(&[("property", "profile:username"), ("content", "HenriTEL")]),
        MetaElement { name: "title".into(), attrs: vec![] },
    ];
    let (u, img, desc) = github_metas(&elements);
    assert_eq!(u.as_deref(), Some("HenriTEL"));
    assert_eq!(img.as_deref(), Some("https://avatars.githubusercontent.com/u/5563535?v=4?s=400"));
    assert_eq!(
        desc.as_deref(),
        Some("Weekend handyman. HenriTEL has 15 repositories available. Follow their code on GitHub.")
    );
}

#[test]
fn parse_fixture_metas_content_before_property() {
    let elements = vec![
        meta(&[("content", "https://avatars.example.com/me.png?v=4"), ("property", "og:image")]),
        meta(&[("content", "Charlie"), ("property", "profile:username")]),
        meta(&[("content", "Hobbyist. HenriTEL has 9 repositories available. Follow their code on GitHub."), ("property", "og:description")]),
    ];
    let (u, img, desc) = github_metas(&elements);
    assert_eq!(u.as_deref(), Some("Charlie"));
    assert_eq!(img.as_deref(), Some("https://avatars.example.com/me.png?v=4"));
    assert_eq!(strip_github_profile_og_suffix(desc.unwrap().as_str()), "Hobbyist");
}

#[test]
fn later_meta_overrides_and_bio_defaults() {
    let elements = vec![
        meta(&[("content", "Charlie"), ("property", "profile:username")]),
        meta(&[("content", "Hobbyist. HenriTEL has 9 repositories available. Follow their code on GitHub."), ("property", "og:description")]),
        meta(&[("content", "Dana"), ("property", "profile:username")]),
    ];
    let (u, _img, desc) = github_metas(&elements);
    assert_eq!(u.as_deref(), Some("Dana"));
    assert_eq!(bio_from_description(desc), "Hobbyist");
    assert_eq!(bio_from_description(None), "");
}

#[test]
fn responses_are_judged() {
    assert!(check_http_status(200).is_ok());
    assert!(matches!(check_http_status(404), Err(UserProfileError::HttpStatus(404))));
    assert!(check_avatar_response(200, "IMAGE/png").is_ok());
    match check_avatar_response(200, "text/html") {
        Err(UserProfileError::NonImageAvatar { content_type }) => assert_eq!(content_type, "text/html"),
        _ => panic!("expected a non-image error"),
    }
    assert!(matches!(check_avatar_response(500, "image/png"), Err(UserProfileError::HttpStatus(500))));
    assert_eq!(UserProfileError::HttpStatus(503).message(), "unexpected HTTP status 503");
    match required_meta(None, "og:image") {
        Err(e) => assert_eq!(e.message(), "missing required meta `og:image`"),
        Ok(_) => panic!("expected missing meta"),
    }
}

#[test]
fn profile_url_and_fallbacks() {
    let p = GithubUserProfile::new("/HenriTEL".to_string());
    assert_eq!(p.profile_url(), "https://github.com/HenriTEL");
    assert_eq!(fallback_username(Some("/home/me/my-blog".into())), "my-blog");
    assert_eq!(fallback_username(None), "blog");
    assert_eq!(
        fetch_remote_candidates(Some("up".into()), None),
        vec!["up".to_string(), "origin".to_string()]
    );
}

#[test]
fn error_messages_name_their_cause() {
    assert_eq!(
        UpdateProfileError::UnsupportedHost("gitlab.com".to_string()).message(),
        "unsupported host `gitlab.com` (only github.com profiles are implemented)"
    );
    assert_eq!(
        UpdateProfileError::UnsupportedRepositoryScheme("ftp".to_string()).message(),
        "repository scheme `ftp` is not supported"
    );
    assert_eq!(
        UserProfileError::NonImageAvatar { content_type: "text/html".to_string() }.message(),
        "avatar response is not an image (content-type: text/html)"
    );
    let bad = parse_git_url("::::").err();
    if let Some(e) = bad {
        assert!(e.message().starts_with("invalid repository URI: "));
    }
}

#[test]
fn bio_is_the_pattern_result_else_the_description_trimmed() {
    assert_eq!(bio_from_replaced(" raw. ", Some("  kept  ".to_string())), "kept");
    assert_eq!(bio_from_replaced("  raw  ", None), "raw");
}
