use gitblog::blog_post::{
    BlogPost, BlogPostStore, BlogPostUpdate, collect_sections, fallback_title, get_by_path,
    is_draft_md, published_path_from_draft, section_from_path, set_publication_date, sort_newest_first,
    try_set_publication_date, update_by_path, upsert,
};
use gitblog::time::Timestamp;

fn ts(s: &str) -> Timestamp {
    Timestamp::parse_rfc3339(s).expect("valid timestamp")
}

#[test]
fn published_path_from_draft_strips_suffix() {
    assert_eq!(
        published_path_from_draft("notes/post.draft.md"),
        Some("notes/post.md".to_string())
    );
}

#[test]
fn is_draft_md_matches_pattern() {
    assert!(is_draft_md("a.draft.md"));
    assert!(!is_draft_md("a.md"));
}

#[test]
fn section_from_path_uses_top_level_folder() {
    assert_eq!(section_from_path("tech/hello.md"), Some("tech".to_string()));
    assert_eq!(section_from_path("tech/sub/hello.md"), Some("tech".to_string()));
    assert_eq!(section_from_path("hello.md"), None);
}

#[test]
fn fallback_title_is_file_stem() {
    assert_eq!(fallback_title("notes/my-post.md"), "my-post");
}

#[test]
fn upsert_then_read_by_path_keeps_publication_date() {
    let mut store = BlogPostStore::new();
    let mut first = BlogPost::new(
        "notes/a.md".to_string(),
        ts("2024-01-01T00:00:00+00:00"),
        "A".to_string(),
        String::new(),
    );
    first.publication_date = Some(ts("2023-12-01T00:00:00+00:00"));
    upsert(&mut store, first);
    let second = BlogPost::new(
        "notes/a.md".to_string(),
        ts("2024-02-01T00:00:00+00:00"),
        "A2".to_string(),
        "S".to_string(),
    );
    let stored = upsert(&mut store, second);
    assert_eq!(stored.title, "A2");
    let read = get_by_path(&store, &"notes/a.md".to_string()).expect("stored");
    assert_eq!(read.title, "A2");
    assert_eq!(read.section.as_deref(), Some("notes"));
    let pub_date = read.publication_date.expect("kept");
    assert_eq!(pub_date.secs(), ts("2023-12-01T00:00:00+00:00").secs());
}

#[test]
fn try_set_publication_date_does_not_overwrite() {
    let mut store = BlogPostStore::new();
    let path = "p.md".to_string();
    upsert(
        &mut store,
        BlogPost::new(path.clone(), ts("2024-01-01T00:00:00+00:00"), "P".into(), String::new()),
    );
    try_set_publication_date(&mut store, &path, ts("2024-03-01T00:00:00+00:00"));
    try_set_publication_date(&mut store, &path, ts("2024-04-01T00:00:00+00:00"));
    let p = get_by_path(&store, &path).expect("stored");
    assert_eq!(p.publication_date.unwrap().secs(), ts("2024-03-01T00:00:00+00:00").secs());
    set_publication_date(&mut store, &path, ts("2024-05-01T00:00:00+00:00"));
    let p = get_by_path(&store, &path).expect("stored");
    assert_eq!(p.publication_date.unwrap().secs(), ts("2024-05-01T00:00:00+00:00").secs());
}

#[test]
fn update_by_path_moves_post() {
    let mut store = BlogPostStore::new();
    upsert(
        &mut store,
        BlogPost::new("a/x.md".into(), ts("2024-01-01T00:00:00+00:00"), "X".into(), String::new()),
    );
    let mut update = BlogPostUpdate::none();
    update.path = Some("b/y.md".to_string());
    let moved = update_by_path(&mut store, &"a/x.md".to_string(), update).expect("updated");
    assert_eq!(moved.section.as_deref(), Some("b"));
    assert!(get_by_path(&store, &"a/x.md".to_string()).is_none());
    assert!(get_by_path(&store, &"b/y.md".to_string()).is_some());
    assert!(update_by_path(&mut store, &"missing.md".to_string(), BlogPostUpdate::none()).is_none());
}

#[test]
fn collect_sections_sorts_and_dedups() {
    let t = ts("2024-01-01T00:00:00+00:00");
    let posts = vec![
        BlogPost::new("tech/a.md".into(), t, "a".into(), String::new()),
        BlogPost::new("rant/b.md".into(), t, "b".into(), String::new()),
        BlogPost::new("tech/c.md".into(), t, "c".into(), String::new()),
        BlogPost::new("top.md".into(), t, "d".into(), String::new()),
    ];
    assert_eq!(collect_sections(&posts), vec!["rant".to_string(), "tech".to_string()]);
}

#[test]
fn effective_publication_date_falls_back_to_last_update() {
    let p = BlogPost::new("a.md".into(), ts("2024-01-01T00:00:00+00:00"), "a".into(), String::new());
    assert_eq!(p.effective_publication_date().secs(), ts("2024-01-01T00:00:00+00:00").secs());
}

#[test]
fn listing_orders_newest_first_and_keeps_ties_in_order() {
    let post = |path: &str, updated: &str, published: Option<&str>| {
        let mut p = BlogPost::new(path.to_string(), ts(updated), path.to_string(), String::new());
        p.publication_date = published.map(ts);
        p
    };
    let posts = vec![
        post("a.md", "2024-01-01T00:00:00+00:00", Some("2024-03-01T00:00:00+00:00")),
        post("b.md", "2024-02-01T00:00:00+01:00", None),
        post("c.md", "2024-05-01T00:00:00+00:00", Some("2023-01-01T00:00:00+00:00")),
        post("d.md", "2024-01-31T23:00:00+00:00", None),
    ];
    let by_update: Vec<String> =
        sort_newest_first(&posts, false).into_iter().map(|p| p.path).collect();
    assert_eq!(by_update, vec!["c.md", "b.md", "d.md", "a.md"]);
    let by_publication: Vec<String> =
        sort_newest_first(&posts, true).into_iter().map(|p| p.path).collect();
    assert_eq!(by_publication, vec!["a.md", "b.md", "d.md", "c.md"]);
}
