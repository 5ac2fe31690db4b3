use gitblog::push::{
    PushSummary, compute_deletions, is_ftp_scheme, list_base, normalize_ftp_root_prefix,
    normalize_remote_entry_path, push_key_prefix, remote_path, to_remote_path,
};

#[test]
fn compute_deletions_respects_delete_flag() {
    let local = vec!["index.html".to_string()];
    let remote = vec!["index.html".to_string(), "old.html".to_string()];

    let deletions_without_delete = compute_deletions(&local, &remote, false);
    assert!(deletions_without_delete.is_empty());

    let deletions_with_delete = compute_deletions(&local, &remote, true);
    assert_eq!(deletions_with_delete, vec!["old.html".to_string()]);
}

#[test]
fn compute_deletions_sorts_and_dedups() {
    let local = vec!["a".to_string()];
    let remote = vec!["z".to_string(), "b".to_string(), "a".to_string(), "b".to_string()];
    assert_eq!(compute_deletions(&local, &remote, true), vec!["b".to_string(), "z".to_string()]);
}

#[test]
fn normalize_ftp_root_prefix_handles_common_inputs() {
    assert_eq!(normalize_ftp_root_prefix("/"), "");
    assert_eq!(normalize_ftp_root_prefix(""), "");
    assert_eq!(normalize_ftp_root_prefix("blog"), "blog/");
    assert_eq!(normalize_ftp_root_prefix("/blog/"), "blog/");
    assert_eq!(normalize_ftp_root_prefix(" /blog/assets/ "), "blog/assets/");
}

#[test]
fn remote_paths_are_spelled_with_prefix_and_slashes() {
    assert_eq!(to_remote_path("posts\\a.md"), "posts/a.md");
    assert_eq!(normalize_remote_entry_path("//blog/a.html"), "blog/a.html");
    assert_eq!(remote_path("blog/", "a.html"), "blog/a.html");
    assert_eq!(list_base(""), "/");
    assert_eq!(list_base("blog/"), "blog/");
}

#[test]
fn ftp_targets_get_a_key_prefix() {
    assert!(is_ftp_scheme("FTP"));
    assert!(!is_ftp_scheme("s3"));
    assert_eq!(push_key_prefix("ftp", Some("/www/".to_string())), "www/");
    assert_eq!(push_key_prefix("ftp", None), "");
    assert_eq!(push_key_prefix("s3", Some("/www/".to_string())), "");
    let summary = PushSummary { uploaded_files: 2, deleted_files: 1 };
    assert_eq!(summary, PushSummary { uploaded_files: 2, deleted_files: 1 });
}
