use gitblog::blog_post::{BlogPostStore, ObjectId, get_by_path};
use gitblog::git::{
    FileBlob, GitTree, State, TreeEntry, apply_commit_history_to_blog_posts,
    apply_tree_diff_to_blog_posts, collect_updated_file_blobs, commit_time, first_missing_blob,
    local_tree_ends, requested_path, tree_diff, walk_stops_at, worktree_copy_is_skipped,
};
use gitblog::time::Timestamp;

fn blob_id(content: &[u8]) -> ObjectId {
    let oid = gix::objs::compute_hash(gix::hash::Kind::Sha1, gix::objs::Kind::Blob, content)
        .expect("hash");
    ObjectId::from_bytes(oid.as_slice()).expect("sha1 id")
}

fn ts(s: &str) -> Timestamp {
    Timestamp::parse_rfc3339(s).expect("valid timestamp")
}

fn blob(name: &str, oid: ObjectId) -> TreeEntry {
    TreeEntry { filename: name.to_string(), oid, is_tree: false, subtree: None }
}

fn dir(name: &str, oid: ObjectId, entries: Vec<TreeEntry>) -> TreeEntry {
    TreeEntry {
        filename: name.to_string(),
        oid,
        is_tree: true,
        subtree: Some(Box::new(GitTree { entries })),
    }
}

#[test]
fn worktree_copy_skips_dot_git() {
    assert!(worktree_copy_is_skipped(".git", true));
    assert!(worktree_copy_is_skipped(".git/config", false));
    assert!(!worktree_copy_is_skipped("posts/post.md", false));
}

#[test]
fn apply_diff_sets_publication_on_first_create() {
    let mut store = BlogPostStore::new();
    let path = "posts/gitblog-test-create.md".to_string();
    let oid = blob_id(b"# Hello\n");
    let commit_dt = ts("2024-06-01T10:00:00+00:00");
    let diff = vec![(path.clone(), State::Created, Some(oid))];

    apply_tree_diff_to_blog_posts(&mut store, &diff, commit_dt);

    let post = get_by_path(&store, &path).expect("post registered");
    let published = post.publication_date.expect("published");
    assert!(published.same_instant(&commit_dt));
}

#[test]
fn apply_diff_draft_publish_sets_publication_to_commit() {
    let mut store = BlogPostStore::new();
    let draft = "posts/gitblog-test.draft.md".to_string();
    let published = "posts/gitblog-test.md".to_string();
    let oid = blob_id(b"# Draft\n");
    let draft_dt = ts("2024-01-01T10:00:00+00:00");
    let publish_dt = ts("2024-02-01T10:00:00+00:00");

    let create_draft = vec![(draft.clone(), State::Created, Some(oid))];
    apply_tree_diff_to_blog_posts(&mut store, &create_draft, draft_dt);

    let publish = vec![
        (draft.clone(), State::Deleted, None),
        (published.clone(), State::Created, Some(oid)),
    ];
    apply_tree_diff_to_blog_posts(&mut store, &publish, publish_dt);

    let post = get_by_path(&store, &published).expect("published post");
    assert!(post.publication_date.expect("date").same_instant(&publish_dt));
}

#[test]
fn apply_diff_rename_keeps_publication() {
    let mut store = BlogPostStore::new();
    let oid = blob_id(b"# Post\n");
    let created = ts("2024-01-01T10:00:00+00:00");
    apply_tree_diff_to_blog_posts(
        &mut store,
        &vec![("article.md".to_string(), State::Created, Some(oid))],
        created,
    );
    apply_tree_diff_to_blog_posts(
        &mut store,
        &vec![
            ("article.md".to_string(), State::Deleted, None),
            ("renamed.md".to_string(), State::Created, Some(oid)),
        ],
        ts("2024-06-01T10:00:00+00:00"),
    );
    let renamed = get_by_path(&store, &"renamed.md".to_string()).expect("renamed");
    assert!(renamed.effective_publication_date().same_instant(&created));
    assert!(get_by_path(&store, &"article.md".to_string()).is_none());
}

#[test]
fn apply_diff_deletion_drops_post() {
    let mut store = BlogPostStore::new();
    let oid = blob_id(b"# Gone\n");
    apply_tree_diff_to_blog_posts(
        &mut store,
        &vec![("gone.md".to_string(), State::Created, Some(oid))],
        ts("2024-01-01T10:00:00+00:00"),
    );
    apply_tree_diff_to_blog_posts(
        &mut store,
        &vec![("gone.md".to_string(), State::Deleted, None)],
        ts("2024-02-01T10:00:00+00:00"),
    );
    assert!(get_by_path(&store, &"gone.md".to_string()).is_none());
}

#[test]
fn history_preserves_publication_across_rename() {
    let oid = blob_id(b"# Post\n");
    let first = GitTree { entries: vec![blob("article.md", oid)] };
    let second = GitTree { entries: vec![blob("renamed.md", oid)] };
    let created = commit_time(1704103200, 0);
    let renamed_at = commit_time(1717236000, 0);
    let mut store = BlogPostStore::new();
    let first_again = GitTree { entries: vec![blob("article.md", oid)] };
    let initial = vec![(Some(first_again), created)];
    assert!(apply_commit_history_to_blog_posts(&mut store, &initial).is_ok());
    let commits = vec![(Some(second), renamed_at), (Some(first), created)];
    assert!(apply_commit_history_to_blog_posts(&mut store, &commits).is_ok());
    let post = get_by_path(&store, &"renamed.md".to_string()).expect("renamed");
    assert!(post.effective_publication_date().same_instant(&created));
}

#[test]
fn tree_diff_reports_changes_by_path() {
    let a = blob_id(b"a");
    let b = blob_id(b"b");
    let c = blob_id(b"c");
    let d1 = blob_id(b"tree1");
    let d2 = blob_id(b"tree2");
    let from = GitTree {
        entries: vec![blob("keep.md", a), blob("edit.md", a), blob("gone.md", b), dir("notes", d1, vec![blob("x.md", a)])],
    };
    let to = GitTree {
        entries: vec![blob("keep.md", a), blob("edit.md", b), blob("new.md", c), dir("notes", d2, vec![blob("x.md", c)])],
    };
    let mut diff = tree_diff(&from, &to);
    diff.sort_by(|x, y| x.0.cmp(&y.0));
    assert_eq!(
        diff,
        vec![
            ("edit.md".to_string(), State::Modified, Some(b)),
            ("gone.md".to_string(), State::Deleted, None),
            ("new.md".to_string(), State::Created, Some(c)),
            ("notes/x.md".to_string(), State::Modified, Some(c)),
        ]
    );
    assert!(tree_diff(&to, &to).is_empty());
}

#[test]
fn tree_diff_of_replaced_subtree_deletes_and_creates() {
    let a = blob_id(b"a");
    let d = blob_id(b"dir");
    let f = blob_id(b"file");
    let from = GitTree { entries: vec![dir("x", d, vec![blob("y.md", a)])] };
    let to = GitTree { entries: vec![blob("x", f)] };
    let mut diff = tree_diff(&from, &to);
    diff.sort_by(|p, q| p.0.cmp(&q.0));
    assert_eq!(
        diff,
        vec![
            ("x".to_string(), State::Created, Some(f)),
            ("x/y.md".to_string(), State::Deleted, None),
        ]
    );
}

#[test]
fn collect_updated_file_blobs_skips_ignored_paths() {
    let keep_oid = blob_id(b"ok");
    let ignored_oid = blob_id(b"ignored");
    let diff = vec![
        ("posts/hello.md".to_string(), State::Modified, Some(keep_oid)),
        ("draft/wip.md".to_string(), State::Created, Some(ignored_oid)),
    ];

    let blobs = collect_updated_file_blobs(&diff);

    assert_eq!(blobs.len(), 1);
    assert_eq!(blobs[0].file_path, "posts/hello.md");
    assert_eq!(blobs[0].oid, keep_oid);
}

#[test]
fn commit_time_drops_out_of_range_offset() {
    let t = commit_time(100, 3600);
    assert_eq!((t.secs(), t.nanos(), t.offset()), (100, 0, 3600));
    let u = commit_time(100, 90000);
    assert_eq!(u.offset(), 0);
}

#[test]
fn walk_stops_at_cutoff() {
    let cut = ts("2024-01-01T00:00:00+00:00");
    assert!(walk_stops_at(&ts("2023-12-31T00:00:00+00:00"), &Some(cut)));
    assert!(walk_stops_at(&cut, &Some(cut)));
    assert!(!walk_stops_at(&ts("2024-02-01T00:00:00+00:00"), &Some(cut)));
    assert!(!walk_stops_at(&cut, &None));
}

#[test]
fn local_tree_ends_picks_head_and_cutoff() {
    let cut = ts("2024-01-01T00:00:00+00:00");
    let dts = vec![ts("2024-03-01T00:00:00+00:00"), ts("2023-06-01T00:00:00+00:00")];
    assert_eq!(local_tree_ends(&dts, &cut), (Some(0), Some(1)));
    let newer = vec![ts("2024-03-01T00:00:00+00:00")];
    assert_eq!(local_tree_ends(&newer, &cut), (Some(0), None));
    assert_eq!(local_tree_ends(&vec![], &cut), (None, None));
}

#[test]
fn requested_blobs_are_found_and_missing_ones_reported() {
    let a = blob_id(b"a");
    let b = blob_id(b"b");
    let blobs = vec![
        FileBlob { file_path: "one.md".into(), oid: a },
        FileBlob { file_path: "two.md".into(), oid: b },
        FileBlob { file_path: "three.md".into(), oid: a },
    ];
    assert_eq!(requested_path(&blobs, a).as_deref(), Some("three.md"));
    assert_eq!(first_missing_blob(&blobs, &vec![a]), Some(b));
    assert_eq!(first_missing_blob(&blobs, &vec![b, a]), None);
}

#[test]
fn modifications_keep_dates_and_unpublishable_files_stay_out() {
    let mut store = BlogPostStore::new();
    let a = "posts/a.md".to_string();
    let b = "posts/b.md".to_string();
    let created = ts("2024-01-01T10:00:00+00:00");
    let later = ts("2024-02-01T10:00:00+00:00");
    let diff = vec![
        (a.clone(), State::Created, Some(blob_id(b"a1"))),
        (b.clone(), State::Created, Some(blob_id(b"b1"))),
    ];
    apply_tree_diff_to_blog_posts(&mut store, &diff, created);
    let diff = vec![
        (a.clone(), State::Modified, Some(blob_id(b"a2"))),
        ("draft/wip.md".to_string(), State::Created, Some(blob_id(b"w"))),
        ("posts/photo.png".to_string(), State::Created, Some(blob_id(b"png"))),
    ];
    apply_tree_diff_to_blog_posts(&mut store, &diff, later);
    let post_a = get_by_path(&store, &a).expect("a stays");
    assert!(post_a.publication_date.expect("published").same_instant(&created));
    assert!(post_a.last_updated.same_instant(&later));
    assert!(get_by_path(&store, &"draft/wip.md".to_string()).is_none());
    assert!(get_by_path(&store, &"posts/photo.png".to_string()).is_none());
    let diff = vec![(b.clone(), State::Deleted, None)];
    apply_tree_diff_to_blog_posts(&mut store, &diff, later);
    assert!(get_by_path(&store, &b).is_none());
    assert!(get_by_path(&store, &a).is_some());
}

#[test]
fn modifications_update_every_modified_post() {
    let mut store = BlogPostStore::new();
    let a = "posts/a.md".to_string();
    let b = "notes/b.md".to_string();
    let created = ts("2024-01-01T10:00:00+00:00");
    let later = ts("2024-03-01T10:00:00+00:00");
    let diff = vec![
        (a.clone(), State::Created, Some(blob_id(b"a1"))),
        (b.clone(), State::Created, Some(blob_id(b"b1"))),
    ];
    apply_tree_diff_to_blog_posts(&mut store, &diff, created);
    let diff = vec![
        (a.clone(), State::Modified, Some(blob_id(b"a2"))),
        (b.clone(), State::Modified, Some(blob_id(b"b2"))),
    ];
    apply_tree_diff_to_blog_posts(&mut store, &diff, later);
    for (path, content) in [(&a, b"a2"), (&b, b"b2")] {
        let post = get_by_path(&store, path).expect("stored");
        assert_eq!(post.object_id, Some(blob_id(content)));
        assert!(post.last_updated.same_instant(&later));
        assert!(post.publication_date.expect("published").same_instant(&created));
    }
}

#[test]
fn tree_diff_the_other_way_swaps_created_and_deleted() {
    let a = blob_id(b"a");
    let b = blob_id(b"b");
    let c = blob_id(b"c");
    let d = blob_id(b"dir");
    let f = blob_id(b"file");
    let from = GitTree {
        entries: vec![blob("edit.md", a), blob("gone.md", b), dir("x", d, vec![blob("y.md", a)])],
    };
    let to = GitTree { entries: vec![blob("edit.md", b), blob("new.md", c), blob("x", f)] };
    let swap = |s: State| match s {
        State::Created => State::Deleted,
        State::Deleted => State::Created,
        State::Modified => State::Modified,
    };
    let mut forward: Vec<(String, State)> =
        tree_diff(&from, &to).into_iter().map(|(p, s, _)| (p, swap(s))).collect();
    let mut backward: Vec<(String, State)> =
        tree_diff(&to, &from).into_iter().map(|(p, s, _)| (p, s)).collect();
    forward.sort_by(|x, y| x.0.cmp(&y.0).then((x.1 as u8).cmp(&(y.1 as u8))));
    backward.sort_by(|x, y| x.0.cmp(&y.0).then((x.1 as u8).cmp(&(y.1 as u8))));
    assert_eq!(forward, backward);
    assert_eq!(forward.len(), 5);
}
