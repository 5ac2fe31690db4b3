//! What the HTML pages show of a post: its dates, description and link. The pages themselves are
//! rendered from templates outside this library.
use vstd::prelude::*;
use crate::blog_post::{BlogPost, BlogPostV, newest_first, post_views, sort_newest_first};
use crate::markdown::{
    ArticleRenderParts, article_description_html_fragment, article_parts, article_render_parts,
    comrak_html, delimiter_option, description_html, markdown_fragment_to_plain_text, opt_str,
    plain_text, render_markdown_to_html,
};
use crate::paths::{path_with_extension, std_with_extension};
use crate::text::{chars_of, string_of, trim};
use crate::time::{TimeV, Timestamp, format_rfc3339_seconds, human_time, now_utc, rfc3339_secs_text};
use crate::user_profile::UserProfileMeta;

verus! {

/// Metadata for a single post, shared by article and index templates.
#[derive(Debug, Clone)]
pub struct RenderBlogPost {
    pub title: String,
    pub author: String,
    /// Plain text for `<meta name="description">`, the index listing, and Atom summaries.
    pub description: Option<String>,
    /// Rendered HTML for the article header lede (may contain inline markup).
    pub description_html: Option<String>,
    pub creation_dt: Timestamp,
    pub last_update_dt: Timestamp,
    pub creation_dt_rfc3339: String,
    pub last_update_dt_rfc3339: String,
    pub human_time: String,
    /// Site-relative URL path (e.g. `notes/foo.html`).
    pub relative_path: String,
}

/// What a template shows of a post, but for its human-readable date.
pub struct RenderV {
    pub title: Seq<char>,
    pub author: Seq<char>,
    pub description: Option<Seq<char>>,
    pub description_html: Option<Seq<char>>,
    pub creation_dt: TimeV,
    pub last_update_dt: TimeV,
    pub creation_dt_rfc3339: Seq<char>,
    pub last_update_dt_rfc3339: Seq<char>,
    pub relative_path: Seq<char>,
}

impl View for RenderBlogPost {
    type V = RenderV;

    open spec fn view(&self) -> RenderV {
        RenderV {
            title: self.title@,
            author: self.author@,
            description: opt_str(self.description),
            description_html: opt_str(self.description_html),
            creation_dt: self.creation_dt@,
            last_update_dt: self.last_update_dt@,
            creation_dt_rfc3339: self.creation_dt_rfc3339@,
            last_update_dt_rfc3339: self.last_update_dt_rfc3339@,
            relative_path: self.relative_path@,
        }
    }
}

pub open spec fn opt_post_time(o: Option<&BlogPost>, by_publication: bool) -> Option<TimeV> {
    match o {
        Some(p) => Some(crate::blog_post::listing_date(p@, by_publication)),
        None => None,
    }
}

/// Publication date of an article: its front matter `date`, else the stored post's publication
/// date (its last update when unknown), else its front matter `lastmod`.
pub open spec fn article_published(
    store: Option<&BlogPost>,
    fm_publication: Option<TimeV>,
    fm_last_modified: Option<TimeV>,
) -> Option<TimeV> {
    match fm_publication {
        Some(d) => Some(d),
        None => match opt_post_time(store, true) {
            Some(d) => Some(d),
            None => fm_last_modified,
        },
    }
}

/// Publication and last update dates of an article page: the publication date as
/// [`article_published`] gives it (the current time when none), and the last update from the
/// front matter `lastmod`, else the stored post, else the publication date.
pub fn resolve_article_dates(
    store: Option<&BlogPost>,
    frontmatter_publication: Option<Timestamp>,
    frontmatter_last_modified: Option<Timestamp>,
) -> (r: (Timestamp, Timestamp))
    ensures
        match article_published(
            store,
            crate::markdown::opt_time(frontmatter_publication),
            crate::markdown::opt_time(frontmatter_last_modified),
        ) {
            Some(d) => r.0@ == d,
            None => r.0@.offset == 0,
        },
        r.1@ == match crate::markdown::opt_time(frontmatter_last_modified) {
            Some(d) => d,
            None => match opt_post_time(store, false) {
                Some(d) => d,
                None => r.0@,
            },
        },
{
    let published = match frontmatter_publication {
        Some(d) => d,
        None => match store {
            Some(p) => p.effective_publication_date(),
            None => match frontmatter_last_modified {
                Some(d) => d,
                None => now_utc(),
            },
        },
    };
    let last_updated = match frontmatter_last_modified {
        Some(d) => d,
        None => match store {
            Some(p) => p.last_updated,
            None => published,
        },
    };
    (published, last_updated)
}

fn text_of(s: &str) -> (r: String)
    ensures
        r@ == s@,
{
    let v = chars_of(s);
    string_of(v.as_slice())
}

/// What the site index shows of a post: its title, the author, the plain text of its rendered
/// summary (none without one), its publication and update dates and its page.
pub open spec fn index_render_of(p: BlogPostV, author: Seq<char>) -> RenderV {
    let published = crate::blog_post::listing_date(p, true);
    RenderV {
        title: p.title,
        author,
        description: if p.summary.len() == 0 {
            None
        } else {
            Some(plain_text(p.summary, comrak_html(p.summary, None)))
        },
        description_html: None,
        creation_dt: published,
        last_update_dt: p.last_updated,
        creation_dt_rfc3339: rfc3339_secs_text(published),
        last_update_dt_rfc3339: rfc3339_secs_text(p.last_updated),
        relative_path: std_with_extension(p.path, "html"@),
    }
}

/// What the site index shows of a post.
pub fn index_render_post(post: &BlogPost, author: &str) -> (r: RenderBlogPost)
    ensures
        r@ == index_render_of(post@, author@),
{
    proof {
        reveal_strlit("html");
    }
    let published = post.effective_publication_date();
    let updated = post.last_updated;
    let description = if post.summary.as_str().is_empty() {
        None
    } else {
        Some(markdown_fragment_to_plain_text(post.summary.as_str()))
    };
    RenderBlogPost {
        title: text_of(post.title.as_str()),
        author: text_of(author),
        description,
        description_html: None,
        creation_dt: published,
        last_update_dt: updated,
        creation_dt_rfc3339: format_rfc3339_seconds(&published),
        last_update_dt_rfc3339: format_rfc3339_seconds(&updated),
        human_time: human_time(&updated),
        relative_path: path_with_extension(post.path.as_str(), "html"),
    }
}

/// The site index dates a post by its effective publication date: the creation date it shows
/// (and its RFC 3339 text) is the post's publication date when it has one, else its last update;
/// the update date it shows is always the last update.
pub proof fn law_index_creation_date_is_publication(p: BlogPostV, author: Seq<char>)
    ensures
        index_render_of(p, author).creation_dt == match p.publication_date {
            Some(d) => d,
            None => p.last_updated,
        },
        index_render_of(p, author).creation_dt_rfc3339 == rfc3339_secs_text(
            match p.publication_date {
                Some(d) => d,
                None => p.last_updated,
            },
        ),
        index_render_of(p, author).last_update_dt == p.last_updated,
        index_render_of(p, author).last_update_dt_rfc3339 == rfc3339_secs_text(p.last_updated),
{
}

pub open spec fn render_views(v: Seq<RenderBlogPost>) -> Seq<RenderV> {
    Seq::new(v.len(), |i: int| v[i]@)
}

/// The site index's posts: most recently published first, as [`index_render_post`] shows them.
pub fn index_render_posts(posts: &Vec<BlogPost>, user_profile: &UserProfileMeta) -> (r: Vec<
    RenderBlogPost,
>)
    ensures
        ({
            let sorted = newest_first(post_views(posts@), true);
            render_views(r@) == Seq::new(
                sorted.len(),
                |i: int| index_render_of(sorted[i], user_profile.username@),
            )
        }),
{
    let sorted = sort_newest_first(posts, true);
    let ghost sv = post_views(sorted@);
    let mut out: Vec<RenderBlogPost> = Vec::new();
    let mut i: usize = 0;
    while i < sorted.len()
        invariant
            i <= sorted.len(),
            sv == post_views(sorted@),
            render_views(out@) == Seq::new(
                i as nat,
                |j: int| index_render_of(sv[j], user_profile.username@),
            ),
        decreases sorted.len() - i,
    {
        let r = index_render_post(&sorted[i], user_profile.username.as_str());
        let ghost before = render_views(out@);
        let ghost rv = r@;
        proof {
            assert(sv[i as int] == sorted@[i as int]@);
        }
        out.push(r);
        proof {
            assert(render_views(out@) =~= before.push(rv));
            assert(render_views(out@) =~= Seq::new(
                (i + 1) as nat,
                |j: int| index_render_of(sv[j], user_profile.username@),
            ));
        }
        i += 1;
    }
    out
}

/// What an article page shows: its parts' title, the author, the plain text of its summary
/// (none when empty), the summary's inline HTML, the given dates and its page.
pub open spec fn article_render_of(
    parts: crate::markdown::ArticlePartsV,
    author: Seq<char>,
    source_rel_path: Seq<char>,
    published: TimeV,
    last_updated: TimeV,
) -> RenderV {
    let plain = plain_text(parts.summary_markdown, comrak_html(parts.summary_markdown, None));
    RenderV {
        title: parts.title,
        author,
        description: if plain.len() == 0 {
            None
        } else {
            Some(plain)
        },
        description_html: description_html(
            parts.summary_markdown,
            comrak_html(trim(parts.summary_markdown), None),
        ),
        creation_dt: published,
        last_update_dt: last_updated,
        creation_dt_rfc3339: rfc3339_secs_text(published),
        last_update_dt_rfc3339: rfc3339_secs_text(last_updated),
        relative_path: std_with_extension(source_rel_path, "html"@),
    }
}

/// What an article page shows of a post, dated by [`resolve_article_dates`].
pub fn article_render_post(
    parts: &ArticleRenderParts,
    store: Option<&BlogPost>,
    author: &str,
    source_rel_path: &str,
) -> (r: RenderBlogPost)
    ensures
        ({
            let (published, last_updated) = (r@.creation_dt, r@.last_update_dt);
            &&& r@ == article_render_of(parts@, author@, source_rel_path@, published, last_updated)
            &&& match article_published(store, parts@.publication_date, parts@.last_modified) {
                Some(d) => published == d,
                None => published.offset == 0,
            }
            &&& last_updated == match parts@.last_modified {
                Some(d) => d,
                None => match opt_post_time(store, false) {
                    Some(d) => d,
                    None => published,
                },
            }
        }),
{
    proof {
        reveal_strlit("html");
    }
    let (published, last_updated) = resolve_article_dates(
        store,
        parts.publication_date,
        parts.last_modified,
    );
    let plain = markdown_fragment_to_plain_text(parts.summary_markdown.as_str());
    let description = if plain.as_str().is_empty() {
        None
    } else {
        Some(plain)
    };
    RenderBlogPost {
        title: text_of(parts.title.as_str()),
        author: text_of(author),
        description,
        description_html: article_description_html_fragment(parts.summary_markdown.as_str()),
        creation_dt: published,
        last_update_dt: last_updated,
        creation_dt_rfc3339: format_rfc3339_seconds(&published),
        last_update_dt_rfc3339: format_rfc3339_seconds(&last_updated),
        human_time: human_time(&last_updated),
        relative_path: path_with_extension(source_rel_path, "html"),
    }
}

/// An article page from its Markdown source: what the page shows of the post (dated by
/// [`resolve_article_dates`] from the source and the stored post) and the page's main HTML,
/// the body rendered with the front matter delimiter.
pub fn markdown_article_page(
    markdown: &str,
    fallback_title: &str,
    frontmatter_delimiter: &str,
    store: Option<&BlogPost>,
    author: &str,
    source_rel_path: &str,
) -> (r: (RenderBlogPost, String))
    ensures
        ({
            let parts = article_parts(markdown@, fallback_title@, frontmatter_delimiter@);
            let (published, last_updated) = (r.0@.creation_dt, r.0@.last_update_dt);
            &&& r.1@ == comrak_html(parts.body_markdown, delimiter_option(frontmatter_delimiter@))
            &&& r.0@ == article_render_of(parts, author@, source_rel_path@, published, last_updated)
            &&& match article_published(store, parts.publication_date, parts.last_modified) {
                Some(d) => published == d,
                None => published.offset == 0,
            }
            &&& last_updated == match parts.last_modified {
                Some(d) => d,
                None => match opt_post_time(store, false) {
                    Some(d) => d,
                    None => published,
                },
            }
        }),
{
    let parts = article_render_parts(markdown, fallback_title, frontmatter_delimiter);
    let post = article_render_post(&parts, store, author, source_rel_path);
    let main = render_markdown_to_html(parts.body_markdown.as_str(), frontmatter_delimiter);
    (post, main)
}

} // verus!

