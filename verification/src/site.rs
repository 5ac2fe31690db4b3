//! The build of the site around the store: which posts are published, where the previous
//! feed's entries come from, and the answers the build reads.
use vstd::prelude::*;
use crate::blog_post::{BlogPost, BlogPostStore, BlogPostV, StoreV, post_views, upsert_spec};
use crate::feed::{Feed, EntryV, entry_views};
use crate::paths::{path_extension, path_with_extension, std_extension, std_with_extension};
use crate::text::{
    chars_of, push_str, starts_with, starts_with_exec, string_of, trim, trim_end_char,
    trim_start_char, trimmed, ascii_lower,
};
use crate::{ignore_check_panics, is_ignored, path_is_ignored};

verus! {

/// The path of a URL, as `url::Url::parse(text)` then `path()` give it; nothing when the text
/// is not a URL.
pub uninterp spec fn url_path(text: Seq<char>) -> Option<Seq<char>>;

/// Calls `reqwest::Url::parse` and `Url::path`. The contract names the result.
#[verifier::external_body]
fn parse_url_path(text: &str) -> (r: Option<String>)
    ensures
        crate::paths::opt_text(r) == url_path(text@),
{
    reqwest::Url::parse(text).ok().map(|u| u.path().to_string())
}

/// The feed's address: the blog URL without trailing slashes, then `/atom.xml`.
pub fn atom_feed_url(blog_url: &str) -> (r: String)
    ensures
        r@ == trim_end_char(blog_url@, '/') + "/atom.xml"@,
{
    let v = chars_of(blog_url);
    let mut t = crate::text::trim_end_char_exec(v.as_slice(), '/');
    push_str(&mut t, "/atom.xml");
    string_of(t.as_slice())
}

/// The source path a feed entry's link points to, relative to the site: the link without the
/// blog URL (else the path of the link, else the link), without leading slashes, with `.md` in
/// place of `.html` or of a missing extension.
pub open spec fn entry_source_path(blog_url: Seq<char>, entry_url: Seq<char>) -> Seq<char> {
    let base = trim_end_char(blog_url, '/');
    let rel = if starts_with(entry_url, base) {
        trim_start_char(entry_url.skip(base.len() as int), '/')
    } else {
        match url_path(entry_url) {
            Some(p) => trim_start_char(p, '/'),
            None => trim_start_char(entry_url, '/'),
        }
    };
    match std_extension(rel) {
        Some(e) => if e == "html"@ {
            std_with_extension(rel, "md"@)
        } else {
            rel
        },
        None => std_with_extension(rel, "md"@),
    }
}

fn trim_leading_slashes(s: &[char]) -> (r: Vec<char>)
    ensures
        r@ == trim_start_char(s@, '/'),
{
    let mut a: usize = 0;
    proof {
        assert(s@.skip(0) =~= s@);
    }
    while a < s.len() && s[a] == '/'
        invariant
            a <= s.len(),
            trim_start_char(s@.skip(a as int), '/') == trim_start_char(s@, '/'),
        decreases s.len() - a,
    {
        proof {
            assert(s@.skip(a as int).drop_first() =~= s@.skip(a + 1));
        }
        a += 1;
    }
    let r = crate::text::slice_to_vec(s, a, s.len());
    proof {
        assert(r@ =~= s@.skip(a as int));
    }
    r
}

/// The source path of a feed entry.
pub fn source_path_from_entry_url(blog_url: &str, entry_url: &str) -> (r: String)
    ensures
        r@ == entry_source_path(blog_url@, entry_url@),
{
    proof {
        reveal_strlit("md");
    }
    let bv = chars_of(blog_url);
    let base = crate::text::trim_end_char_exec(bv.as_slice(), '/');
    let ev = chars_of(entry_url);
    let rel = if starts_with_exec(ev.as_slice(), base.as_slice()) {
        let rest = crate::text::slice_to_vec(ev.as_slice(), base.len(), ev.len());
        proof {
            assert(rest@ =~= entry_url@.skip(base@.len() as int));
        }
        trim_leading_slashes(rest.as_slice())
    } else {
        match parse_url_path(entry_url) {
            Some(p) => {
                let pv = chars_of(p.as_str());
                trim_leading_slashes(pv.as_slice())
            },
            None => trim_leading_slashes(ev.as_slice()),
        }
    };
    let rel_s = string_of(rel.as_slice());
    match path_extension(rel_s.as_str()) {
        Some(e) => if crate::order::str_eq_text(e.as_str(), "html") {
            path_with_extension(rel_s.as_str(), "md")
        } else {
            rel_s
        },
        None => path_with_extension(rel_s.as_str(), "md"),
    }
}

/// No post path makes the ignore check panic.
pub open spec fn post_paths_checkable(posts: Seq<BlogPostV>) -> bool {
    forall|i: int| 0 <= i < posts.len() ==> !ignore_check_panics(#[trigger] posts[i].path)
}

/// The posts that are published: those whose source is not ignored, in order.
pub fn publishable_blog_posts(posts: Vec<BlogPost>) -> (r: Vec<BlogPost>)
    requires
        post_paths_checkable(post_views(posts@)),
    ensures
        post_views(r@) == post_views(posts@).filter(|p: BlogPostV| !is_ignored(p.path, false)),
{
    let mut out: Vec<BlogPost> = Vec::new();
    let mut i: usize = 0;
    let ghost pv = post_views(posts@);
    proof {
        assert(pv.take(0).filter(|p: BlogPostV| !is_ignored(p.path, false)) =~= Seq::<
            BlogPostV,
        >::empty()) by {
            reveal(Seq::filter);
        }
        assert(post_views(out@) =~= Seq::<BlogPostV>::empty());
    }
    while i < posts.len()
        invariant
            i <= posts.len(),
            pv == post_views(posts@),
            post_paths_checkable(pv),
            post_views(out@) == pv.take(i as int).filter(|p: BlogPostV| !is_ignored(p.path, false)),
        decreases posts.len() - i,
    {
        proof {
            assert(pv.take(i + 1).drop_last() =~= pv.take(i as int));
            assert(pv.take(i + 1).last() == posts@[i as int]@);
            assert(!ignore_check_panics(pv[i as int].path));
            reveal(Seq::filter);
        }
        if !path_is_ignored(posts[i].path.as_str(), false) {
            let c = posts[i].duplicate();
            let ghost before = post_views(out@);
            out.push(c);
            proof {
                assert(post_views(out@) =~= before.push(posts@[i as int]@));
            }
        }
        i += 1;
    }
    proof {
        assert(pv.take(posts.len() as int) =~= pv);
    }
    out
}

/// The post a feed entry stands for: at its source path, with its title, summary, update time
/// and publication time (the update time when it has none).
pub open spec fn entry_post(blog_url: Seq<char>, e: EntryV) -> BlogPostV {
    let path = entry_source_path(blog_url, e.href);
    BlogPostV {
        object_id: None,
        last_updated: e.updated,
        publication_date: Some(
            match e.published {
                Some(d) => d,
                None => e.updated,
            },
        ),
        title: e.title,
        summary: e.summary,
        path,
        section: crate::blog_post::section_of(path),
    }
}

/// Store after the first `n` entries of a feed were stored as posts.
pub open spec fn hydrate_spec(s: StoreV, blog_url: Seq<char>, es: Seq<EntryV>, n: int) -> StoreV
    decreases n,
{
    if n <= 0 {
        s
    } else {
        upsert_spec(hydrate_spec(s, blog_url, es, n - 1), entry_post(blog_url, es[n - 1])).0
    }
}

/// Stores the posts of the previously published feed, each at the source path its link points
/// to.
pub fn hydrate_blog_posts_from_atom_feed(store: &mut BlogPostStore, feed: &Feed, blog_url: &str)
    ensures
        final(store)@ == hydrate_spec(
            old(store)@,
            blog_url@,
            entry_views(feed.entries@),
            feed.entries@.len() as int,
        ),
{
    let ghost ev = entry_views(feed.entries@);
    let mut i: usize = 0;
    while i < feed.entries.len()
        invariant
            i <= feed.entries.len(),
            ev == entry_views(feed.entries@),
            store@ == hydrate_spec(old(store)@, blog_url@, ev, i as int),
        decreases feed.entries.len() - i,
    {
        let entry = &feed.entries[i];
        let path = source_path_from_entry_url(blog_url, entry.link.href.as_str());
        let post = BlogPost::from_source(
            path.clone(),
            entry.title.clone(),
            entry.summary.clone(),
            entry.updated,
            entry.effective_published(),
        );
        proof {
            assert(ev[i as int] == entry@);
        }
        crate::git::update_blog_post_from_atom(store, path, post);
        proof {
            assert(BlogPostV { path: path@, ..post@ } == entry_post(blog_url@, ev[i as int]));
        }
        i += 1;
    }
}

/// The answer read from the prompt confirms: something was read, and it is `y` or `yes` in any
/// letter case, around whitespace.
pub open spec fn confirms(read_something: bool, line: Seq<char>) -> bool {
    let t = trim(line);
    let lower = Seq::new(t.len(), |i: int| ascii_lower(t[i]));
    read_something && (lower == "y"@ || lower == "yes"@)
}

/// Whether the answer read from the prompt confirms.
pub fn is_confirmation(read_something: bool, line: &str) -> (r: bool)
    ensures
        r == confirms(read_something, line@),
{
    if !read_something {
        return false;
    }
    let v = chars_of(line);
    let t = trimmed(v.as_slice());
    let ts = string_of(t.as_slice());
    proof {
        reveal_strlit("y");
        reveal_strlit("yes");
    }
    let y = crate::text::eq_ignore_ascii_case_exec(ts.as_str(), "y");
    let yes = crate::text::eq_ignore_ascii_case_exec(ts.as_str(), "yes");
    proof {
        let lower = Seq::new(t@.len(), |i: int| ascii_lower(t@[i]));
        if y {
            assert(lower =~= "y"@);
        }
        if yes {
            assert(lower =~= "yes"@);
        }
        if lower == "y"@ {
            assert(crate::text::eq_ignore_ascii_case(ts@, "y"@));
        }
        if lower == "yes"@ {
            assert(forall|i: int| 0 <= i < 3 ==> ascii_lower(#[trigger] ts@[i]) == ascii_lower("yes"@[i]));
        }
    }
    y || yes
}

/// A fetched blob is read as a post source: a Markdown file that is published.
pub open spec fn refreshes_from(file_path: Seq<char>) -> bool {
    crate::paths::is_md(file_path) && !is_ignored(file_path, false)
}

/// Whether a fetched blob is read as a post source.
pub fn blob_refreshes_post(file_path: &str) -> (r: bool)
    requires
        !ignore_check_panics(file_path@),
    ensures
        r == refreshes_from(file_path@),
{
    crate::paths::has_md_extension(file_path) && !path_is_ignored(file_path, false)
}

} // verus!
