use gitblog::blog_post::BlogPost;
use gitblog::feed::{build_feed_at, build_feed_from_blog_posts, generate};
use gitblog::time::Timestamp;

fn ts(s: &str) -> Timestamp {
    Timestamp::parse_rfc3339(s).expect("valid timestamp")
}

#[test]
fn builds_atom_feed_from_blog_posts() {
    let mut first = BlogPost::new(
        "notes/first.md".to_string(),
        ts("2026-04-01T10:00:00+02:00"),
        "First".to_string(),
        "Summary one".to_string(),
    );
    first.publication_date = Some(ts("2026-04-01T10:00:00+02:00"));
    let mut second = BlogPost::new(
        "notes/second.md".to_string(),
        ts("2026-04-02T10:00:00+02:00"),
        "Second".to_string(),
        String::new(),
    );
    second.publication_date = Some(ts("2026-04-02T10:00:00+02:00"));
    let posts = vec![first, second];

    let feed = build_feed_from_blog_posts("https://example.com/blog", &posts, None);
    assert_eq!(feed.entries.len(), 2);
    assert_eq!(feed.updated.to_rfc3339(), "2026-04-02T10:00:00+02:00");
    assert_eq!(feed.entries[0].link.href, "https://example.com/blog/notes/second.html");
    assert_eq!(feed.entries[1].summary, "Summary one");

    let xml = generate(&feed).expect("atom xml generation");
    assert!(xml.contains("<published>2026-04-02T10:00:00+02:00</published>"));
    assert!(xml.contains("<published>2026-04-01T10:00:00+02:00</published>"));
    assert!(xml.contains("<updated>2026-04-02T10:00:00+02:00</updated>"));
    assert!(xml.contains("<updated>2026-04-01T10:00:00+02:00</updated>"));
    assert!(!xml.contains("T10:00:00.000"));
}

#[test]
fn feed_keeps_previous_identity_and_falls_back_to_its_update() {
    let previous = build_feed_at("https://x.org/", &vec![], None, ts("2025-01-01T00:00:00+00:00"));
    assert_eq!(previous.id, "https://x.org/atom.xml");
    assert_eq!(previous.title, "Blog");
    assert_eq!(previous.author.name, "Unknown");
    assert_eq!(previous.link.href, "https://x.org");
    let mut renamed = previous.clone();
    renamed.title = "Mine".to_string();
    let next = build_feed_from_blog_posts("https://x.org", &vec![], Some(&renamed));
    assert_eq!(next.title, "Mine");
    assert!(next.updated.same_instant(&ts("2025-01-01T00:00:00+00:00")));
}

#[test]
fn same_instant_posts_are_ordered_by_path() {
    let t = ts("2025-01-01T00:00:00+00:00");
    let posts = vec![
        BlogPost::new("b.md".into(), t, "B".into(), String::new()),
        BlogPost::new("a-b.md".into(), t, "AB".into(), String::new()),
        BlogPost::new("a/z.md".into(), t, "AZ".into(), String::new()),
    ];
    let feed = build_feed_at("https://x.org", &posts, None, t);
    let titles: Vec<&str> = feed.entries.iter().map(|e| e.title.as_str()).collect();
    assert_eq!(titles, vec!["AZ", "AB", "B"]);
}

#[test]
fn generate_escapes_text_and_writes_empty_summary() {
    let t = ts("2025-01-01T00:00:00+00:00");
    let posts = vec![BlogPost::new("a.md".into(), t, "Fish & <Chips>".into(), String::new())];
    let feed = build_feed_at("https://x.org", &posts, None, t);
    let xml = generate(&feed).expect("xml");
    assert!(xml.starts_with("<?xml version=\"1.0\" encoding=\"UTF-8\"?><feed xmlns=\"http://www.w3.org/2005/Atom\">"));
    assert!(xml.contains("<title>Fish &amp; &lt;Chips&gt;</title>"));
    assert!(xml.contains("<summary/>"));
    assert!(xml.contains("<link href=\"https://x.org/a.html\" rel=\"alternate\"/>"));
    assert!(!xml.contains("<published>"));
    assert!(xml.ends_with("</entry></feed>"));
}
