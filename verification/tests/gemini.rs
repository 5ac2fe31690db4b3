use gitblog::blog_post::BlogPost;
use gitblog::gemini::{index_gemtext, markdown_file_gemtext, markdown_to_gemtext};
use gitblog::time::Timestamp;

fn ts(s: &str) -> Timestamp {
    Timestamp::parse_rfc3339(s).expect("valid timestamp")
}

#[test]
fn markdown_to_gemtext_converts_core_structures() {
    let md = "# Title\n\nSome [link](https://example.com).\n\n- One\n1. Two\n\n[Standalone](gemini://capsule/path)\n";
    let gemtext = markdown_to_gemtext(md);
    assert!(gemtext.contains("# Title"));
    assert!(gemtext.contains("Some link (https://example.com)."));
    assert!(gemtext.contains("* One"));
    assert!(gemtext.contains("* Two"));
    assert!(gemtext.contains("=> gemini://capsule/path Standalone"));
}

#[test]
fn gemtext_keeps_code_blocks_verbatim() {
    let md = "```\n- not a list\n```\n- item\n";
    assert_eq!(markdown_to_gemtext(md), "```\n- not a list\n```\n* item\n");
}

#[test]
fn gemtext_page_has_title_heading() {
    let page = markdown_file_gemtext("## Hello\n\nBody", "Custom Title");
    assert!(page.starts_with("# Custom Title\n\n"));
    assert!(page.contains("## Hello"));
    assert!(page.contains("Body"));
}

#[test]
fn index_gemtext_lists_newest_first() {
    let posts = vec![
        BlogPost::new(
            "notes/older.md".to_string(),
            ts("2026-04-01T10:00:00+02:00"),
            "Older".to_string(),
            String::new(),
        ),
        BlogPost::new(
            "notes/newer.md".to_string(),
            ts("2026-04-03T10:00:00+02:00"),
            "Newer".to_string(),
            String::new(),
        ),
    ];
    let index = index_gemtext(&posts);
    assert!(index.starts_with("# Blog\n\n"));
    let newer_idx = index.find("=> /notes/newer.gmi Newer (2026-04-03)").expect("newer entry");
    let older_idx = index.find("=> /notes/older.gmi Older (2026-04-01)").expect("older entry");
    assert!(newer_idx < older_idx);
}

#[test]
fn one_gemini_line_per_markdown_line() {
    let md = "# Title\n\nSome [link](https://x.org) text\n```\ncode [a](b)\n```\n- item\n12. step\n[only](https://y.org)\n";
    let out = markdown_to_gemtext(md);
    assert_eq!(out.matches('\n').count(), md.lines().count());
    assert!(out.ends_with('\n'));
}
