use gitblog::blog_post::{BlogPost, BlogPostStore, get_by_path};
use gitblog::feed::build_feed_at;
use gitblog::site::{
    atom_feed_url, blob_refreshes_post, hydrate_blog_posts_from_atom_feed, is_confirmation,
    publishable_blog_posts, source_path_from_entry_url,
};
use gitblog::time::Timestamp;

fn ts(s: &str) -> Timestamp {
    Timestamp::parse_rfc3339(s).expect("valid timestamp")
}

#[test]
fn entry_links_map_to_sources() {
    assert_eq!(
        source_path_from_entry_url("https://blog.example.com/", "https://blog.example.com/tech/post.html"),
        "tech/post.md"
    );
    assert_eq!(
        source_path_from_entry_url("https://blog.example.com", "https://blog.example.com/tech/embedded"),
        "tech/embedded.md"
    );
    assert_eq!(
        source_path_from_entry_url("https://other.org", "https://blog.example.com/a/b.txt"),
        "a/b.txt"
    );
    assert_eq!(source_path_from_entry_url("https://other.org", "/x/y.html"), "x/y.md");
}

#[test]
fn feed_url_is_under_the_blog() {
    assert_eq!(atom_feed_url("https://b.org//"), "https://b.org/atom.xml");
    assert_eq!(atom_feed_url("https://b.org"), "https://b.org/atom.xml");
}

#[test]
fn confirmation_accepts_y_and_yes() {
    assert!(is_confirmation(true, " Yes \n"));
    assert!(is_confirmation(true, "y"));
    assert!(!is_confirmation(true, "no"));
    assert!(!is_confirmation(false, "y"));
    assert!(!is_confirmation(true, "yess"));
}

#[test]
fn drafts_are_not_published() {
    let t = ts("2025-01-01T00:00:00+00:00");
    let posts = vec![
        BlogPost::new("draft/wip.md".into(), t, "w".into(), String::new()),
        BlogPost::new("posts/a.md".into(), t, "a".into(), String::new()),
        BlogPost::new("LICENSE.md".into(), t, "l".into(), String::new()),
    ];
    let kept = publishable_blog_posts(posts);
    assert_eq!(kept.len(), 1);
    assert_eq!(kept[0].path, "posts/a.md");
    assert!(blob_refreshes_post("posts/a.md"));
    assert!(!blob_refreshes_post("posts/a.txt"));
    assert!(!blob_refreshes_post("draft/a.md"));
}

#[test]
fn previous_feed_entries_become_posts() {
    let t = ts("2025-01-01T00:00:00+00:00");
    let mut post = BlogPost::new("tech/post.md".into(), t, "Post".into(), "Sum".into());
    post.publication_date = Some(ts("2024-12-01T00:00:00+00:00"));
    let feed = build_feed_at("https://b.org", &vec![post], None, t);
    let mut store = BlogPostStore::new();
    hydrate_blog_posts_from_atom_feed(&mut store, &feed, "https://b.org");
    let stored = get_by_path(&store, &"tech/post.md".to_string()).expect("hydrated");
    assert_eq!(stored.title, "Post");
    assert_eq!(stored.summary, "Sum");
    assert!(stored.publication_date.expect("date").same_instant(&ts("2024-12-01T00:00:00+00:00")));
}
