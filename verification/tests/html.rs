use gitblog::blog_post::BlogPost;
use gitblog::html::{article_render_post, index_render_posts, resolve_article_dates};
use gitblog::markdown::article_render_parts;
use gitblog::time::Timestamp;
use gitblog::user_profile::UserProfileMeta;


fn ts(s: &str) -> Timestamp {
    Timestamp::parse_rfc3339(s).expect("valid timestamp")
}

#[test]
fn article_dates_prefer_front_matter_then_store() {
    let published = ts("2020-01-02T10:00:00+00:00");
    let updated = ts("2024-05-06T15:30:00+00:00");
    let mut post = BlogPost::new("notes/from-store.md".into(), updated, "Stored".into(), String::new());
    post.publication_date = Some(published);
    let (p, u) = resolve_article_dates(Some(&post), None, None);
    assert!(p.same_instant(&published));
    assert!(u.same_instant(&updated));
    let fm = ts("2021-01-01T00:00:00+00:00");
    let (p2, u2) = resolve_article_dates(Some(&post), Some(fm), None);
    assert!(p2.same_instant(&fm));
    assert!(u2.same_instant(&updated));
    let (p3, u3) = resolve_article_dates(None, None, Some(fm));
    assert!(p3.same_instant(&fm));
    assert!(u3.same_instant(&fm));
}

#[test]
fn article_render_uses_store_dates_in_seconds() {
    let published = ts("2020-01-02T10:00:00+00:00");
    let updated = ts("2024-05-06T15:30:00+00:00");
    let mut post = BlogPost::new("notes/from-store.md".into(), updated, "Stored".into(), String::new());
    post.publication_date = Some(published);
    let parts = article_render_parts("# Hello\n\nBody.", "from-store", "---");
    let r = article_render_post(&parts, Some(&post), "tester", "notes/from-store.md");
    assert_eq!(r.title, "Hello");
    assert_eq!(r.author, "tester");
    assert_eq!(r.creation_dt_rfc3339, "2020-01-02T10:00:00+00:00");
    assert_eq!(r.last_update_dt_rfc3339, "2024-05-06T15:30:00+00:00");
    assert_eq!(r.relative_path, "notes/from-store.html");
    assert_eq!(r.description, None);
}

#[test]
fn index_lists_most_recently_published_first() {
    let mut tech = BlogPost::new(
        "tech/hello-world.md".into(),
        ts("2026-04-01T10:00:00+02:00"),
        "Hello World".into(),
        "Tech summary".into(),
    );
    tech.publication_date = Some(ts("2026-04-01T10:00:00+02:00"));
    let mut rant = BlogPost::new(
        "rant/tenant-hell.md".into(),
        ts("2026-04-03T10:00:00+02:00"),
        "Tenant Hell".into(),
        String::new(),
    );
    rant.publication_date = Some(ts("2026-04-03T10:00:00+02:00"));
    let profile = UserProfileMeta { username: "author".into(), bio: String::new() };
    let rendered = index_render_posts(&vec![tech, rant], &profile);
    assert_eq!(rendered.len(), 2);
    assert_eq!(rendered[0].title, "Tenant Hell");
    assert_eq!(rendered[1].title, "Hello World");
    assert_eq!(rendered[1].description.as_deref(), Some("Tech summary"));
    assert_eq!(rendered[1].relative_path, "tech/hello-world.html");
    assert_eq!(rendered[0].author, "author");
}
