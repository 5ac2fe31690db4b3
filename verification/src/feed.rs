//! The blog's Atom feed: built from the stored posts, newest first, and written as XML through
//! `quick-xml`'s writer.
use vstd::prelude::*;
use crate::blog_post::{BlogPost, BlogPostV, post_views};
use crate::order::path_lt;
use crate::paths::{path_with_extension, std_with_extension};
use crate::text::{chars_of, contains, occurs_at, push_str, string_of, trim_end_char};
use crate::time::{TimeV, Timestamp, format_rfc3339, now_utc, rfc3339_text};
use crate::xml::{
    attrs_text, decl_text, empty_tag, end_tag, pair_views, start_tag, write_decl, write_empty, write_end,
    write_start, write_text, xml_escape,
};

verus! {

/// The feed's author.
#[derive(Debug, Clone)]
pub struct Author {
    pub name: String,
}

/// A link of the feed or of an entry.
#[derive(Debug, Clone)]
pub struct Link {
    pub href: String,
    pub rel: String,
}

/// One post in the feed.
#[derive(Debug, Clone)]
pub struct Entry {
    pub id: String,
    pub title: String,
    pub updated: Timestamp,
    pub published: Option<Timestamp>,
    pub link: Link,
    pub summary: String,
}

/// An Atom feed.
#[derive(Debug, Clone)]
pub struct Feed {
    pub id: String,
    pub title: String,
    pub updated: Timestamp,
    pub author: Author,
    pub link: Link,
    pub logo: Option<String>,
    pub subtitle: Option<String>,
    pub entries: Vec<Entry>,
}

/// Mathematical content of an [`Entry`].
pub struct EntryV {
    pub id: Seq<char>,
    pub title: Seq<char>,
    pub updated: TimeV,
    pub published: Option<TimeV>,
    pub href: Seq<char>,
    pub rel: Seq<char>,
    pub summary: Seq<char>,
}

/// Mathematical content of a [`Feed`].
pub struct FeedV {
    pub id: Seq<char>,
    pub title: Seq<char>,
    pub updated: TimeV,
    pub author: Seq<char>,
    pub href: Seq<char>,
    pub rel: Seq<char>,
    pub logo: Option<Seq<char>>,
    pub subtitle: Option<Seq<char>>,
    pub entries: Seq<EntryV>,
}

pub open spec fn opt_time_view(o: Option<Timestamp>) -> Option<TimeV> {
    match o {
        Some(t) => Some(t@),
        None => None,
    }
}

pub open spec fn opt_str_view(o: Option<String>) -> Option<Seq<char>> {
    match o {
        Some(s) => Some(s@),
        None => None,
    }
}

impl View for Entry {
    type V = EntryV;

    open spec fn view(&self) -> EntryV {
        EntryV {
            id: self.id@,
            title: self.title@,
            updated: self.updated@,
            published: opt_time_view(self.published),
            href: self.link.href@,
            rel: self.link.rel@,
            summary: self.summary@,
        }
    }
}

pub open spec fn entry_views(v: Seq<Entry>) -> Seq<EntryV> {
    Seq::new(v.len(), |i: int| v[i]@)
}

impl View for Feed {
    type V = FeedV;

    open spec fn view(&self) -> FeedV {
        FeedV {
            id: self.id@,
            title: self.title@,
            updated: self.updated@,
            author: self.author.name@,
            href: self.link.href@,
            rel: self.link.rel@,
            logo: opt_str_view(self.logo),
            subtitle: opt_str_view(self.subtitle),
            entries: entry_views(self.entries@),
        }
    }
}

impl Entry {
    /// The publication date when known, else the last update.
    pub fn effective_published(&self) -> (r: Timestamp)
        ensures
            r@ == match self.published {
                Some(d) => d@,
                None => self.updated@,
            },
    {
        match self.published {
            Some(d) => d,
            None => self.updated,
        }
    }
}

/// `a` is listed before `b`: updated later, or at the same instant with a path that comes
/// first.
pub open spec fn post_before(a: BlogPostV, b: BlogPostV) -> bool {
    ||| a.last_updated.instant() > b.last_updated.instant()
    ||| (a.last_updated.instant() == b.last_updated.instant() && path_lt(a.path, b.path))
}

/// Where a stable insertion puts `x`: before the first post it is listed before.
pub open spec fn insert_pos(v: Seq<BlogPostV>, x: BlogPostV) -> int
    decreases v.len(),
{
    if v.len() == 0 {
        0
    } else if post_before(x, v[0]) {
        0
    } else {
        1 + insert_pos(v.drop_first(), x)
    }
}

/// The posts sorted newest first, then by path, equal posts in their given order.
pub open spec fn sort_posts(s: Seq<BlogPostV>) -> Seq<BlogPostV>
    decreases s.len(),
{
    if s.len() == 0 {
        seq![]
    } else {
        let v = sort_posts(s.drop_last());
        v.insert(insert_pos(v, s.last()), s.last())
    }
}

/// The last update of the posts: the latest instant, the last such post when several share it.
pub open spec fn latest(s: Seq<BlogPostV>) -> Option<TimeV>
    decreases s.len(),
{
    if s.len() == 0 {
        None
    } else {
        match latest(s.drop_last()) {
            None => Some(s.last().last_updated),
            Some(b) => if s.last().last_updated.instant() >= b.instant() {
                Some(s.last().last_updated)
            } else {
                Some(b)
            },
        }
    }
}

/// The feed entry of a post: its page link under the blog URL, its title, dates and summary.
pub open spec fn entry_of(base: Seq<char>, p: BlogPostV) -> EntryV {
    let href = base + seq!['/'] + std_with_extension(p.path, "html"@);
    EntryV {
        id: href,
        title: p.title,
        updated: p.last_updated,
        published: p.publication_date,
        href,
        rel: "alternate"@,
        summary: p.summary,
    }
}

/// The feed for the posts: entries newest first; updated at the latest post, else at
/// `fallback`; id, title, author, logo and subtitle kept from the previous feed, else defaults.
pub open spec fn feed_spec(
    blog_url: Seq<char>,
    posts: Seq<BlogPostV>,
    previous: Option<FeedV>,
    fallback: TimeV,
) -> FeedV {
    let base = trim_end_char(blog_url, '/');
    let sorted = sort_posts(posts);
    FeedV {
        id: match previous {
            Some(f) => f.id,
            None => base + "/atom.xml"@,
        },
        title: match previous {
            Some(f) => f.title,
            None => "Blog"@,
        },
        updated: match latest(sorted) {
            Some(t) => t,
            None => fallback,
        },
        author: match previous {
            Some(f) => f.author,
            None => "Unknown"@,
        },
        href: base,
        rel: "alternate"@,
        logo: match previous {
            Some(f) => f.logo,
            None => None,
        },
        subtitle: match previous {
            Some(f) => f.subtitle,
            None => None,
        },
        entries: Seq::new(sorted.len(), |i: int| entry_of(base, sorted[i])),
    }
}

pub open spec fn opt_feed_view(o: Option<&Feed>) -> Option<FeedV> {
    match o {
        Some(f) => Some(f@),
        None => None,
    }
}

fn post_before_exec(a: &BlogPost, b: &BlogPost) -> (r: bool)
    ensures
        r == post_before(a@, b@),
{
    a.last_updated.is_after(&b.last_updated) || (a.last_updated.same_instant(&b.last_updated)
        && crate::order::path_less(a.path.as_str(), b.path.as_str()))
}

fn sorted_posts(posts: &Vec<BlogPost>) -> (r: Vec<BlogPost>)
    ensures
        post_views(r@) == sort_posts(post_views(posts@)),
{
    let mut out: Vec<BlogPost> = Vec::new();
    let mut i: usize = 0;
    let ghost pv = post_views(posts@);
    proof {
        assert(post_views(out@) =~= sort_posts(pv.take(0)));
    }
    while i < posts.len()
        invariant
            i <= posts.len(),
            pv == post_views(posts@),
            post_views(out@) == sort_posts(pv.take(i as int)),
        decreases posts.len() - i,
    {
        let x = &posts[i];
        let ghost ov = post_views(out@);
        let mut k: usize = 0;
        proof {
            assert(ov.skip(0) =~= ov);
        }
        while k < out.len() && !post_before_exec(x, &out[k])
            invariant
                k <= out.len(),
                ov == post_views(out@),
                insert_pos(ov.skip(k as int), x@) + k == insert_pos(ov, x@),
            decreases out.len() - k,
        {
            proof {
                assert(ov.skip(k as int).drop_first() =~= ov.skip(k + 1));
                assert(ov.skip(k as int)[0] == ov[k as int]);
            }
            k += 1;
        }
        proof {
            if k < out.len() {
                assert(ov.skip(k as int)[0] == ov[k as int]);
            }
        }
        let c = x.duplicate();
        out.insert(k, c);
        proof {
            let t = pv.take(i + 1);
            assert(t.drop_last() =~= pv.take(i as int));
            assert(t.last() == x@);
            assert(post_views(out@) =~= ov.insert(k as int, x@));
        }
        i += 1;
    }
    proof {
        assert(pv.take(posts.len() as int) =~= pv);
    }
    out
}

fn latest_exec(posts: &Vec<BlogPost>) -> (r: Option<Timestamp>)
    ensures
        opt_time_view(r) == latest(post_views(posts@)),
{
    let mut best: Option<Timestamp> = None;
    let mut i: usize = 0;
    let ghost pv = post_views(posts@);
    while i < posts.len()
        invariant
            i <= posts.len(),
            pv == post_views(posts@),
            opt_time_view(best) == latest(pv.take(i as int)),
        decreases posts.len() - i,
    {
        proof {
            let t = pv.take(i + 1);
            assert(t.drop_last() =~= pv.take(i as int));
            assert(t.last() == posts@[i as int]@);
        }
        let lu = posts[i].last_updated;
        best = match best {
            None => Some(lu),
            Some(b) => if !b.is_after(&lu) {
                Some(lu)
            } else {
                Some(b)
            },
        };
        i += 1;
    }
    proof {
        assert(pv.take(posts.len() as int) =~= pv);
    }
    best
}

fn text_of(s: &str) -> (r: String)
    ensures
        r@ == s@,
{
    let v = chars_of(s);
    string_of(v.as_slice())
}

fn opt_string_copy(o: &Option<String>) -> (r: Option<String>)
    ensures
        opt_str_view(r) == opt_str_view(*o),
{
    match o {
        Some(s) => Some(text_of(s.as_str())),
        None => None,
    }
}

fn entry_for(base: &String, p: &BlogPost) -> (r: Entry)
    ensures
        r@ == entry_of(base@, p@),
{
    proof {
        reveal_strlit("html");
    }
    let rel_html = path_with_extension(p.path.as_str(), "html");
    let mut v = chars_of(base.as_str());
    v.push('/');
    push_str(&mut v, rel_html.as_str());
    let href = string_of(v.as_slice());
    proof {
        reveal_strlit("html");
        assert(href@ =~= base@ + seq!['/'] + std_with_extension(p@.path, "html"@));
    }
    Entry {
        id: text_of(href.as_str()),
        title: text_of(p.title.as_str()),
        updated: p.last_updated,
        published: p.publication_date,
        link: Link { href, rel: String::from_str("alternate") },
        summary: text_of(p.summary.as_str()),
    }
}

/// The feed for the posts, updated at the latest post's last update, else at `fallback`.
pub fn build_feed_at(
    blog_url: &str,
    posts: &Vec<BlogPost>,
    previous: Option<&Feed>,
    fallback: Timestamp,
) -> (r: Feed)
    ensures
        r@ == feed_spec(blog_url@, post_views(posts@), opt_feed_view(previous), fallback@),
{
    let bv = chars_of(blog_url);
    let bt = crate::text::trim_end_char_exec(bv.as_slice(), '/');
    let base = string_of(bt.as_slice());
    let sorted = sorted_posts(posts);
    let mut entries: Vec<Entry> = Vec::new();
    let mut i: usize = 0;
    let ghost sv = post_views(sorted@);
    while i < sorted.len()
        invariant
            i <= sorted.len(),
            sv == post_views(sorted@),
            entry_views(entries@) == Seq::new(i as nat, |j: int| entry_of(base@, sv[j])),
        decreases sorted.len() - i,
    {
        let e = entry_for(&base, &sorted[i]);
        let ghost before = entry_views(entries@);
        let ghost ev = e@;
        proof {
            assert(sv[i as int] == sorted@[i as int]@);
            assert(ev == entry_of(base@, sv[i as int]));
        }
        entries.push(e);
        proof {
            assert(entry_views(entries@) =~= before.push(ev));
            assert(entry_views(entries@) =~= Seq::new((i + 1) as nat, |j: int| entry_of(base@, sv[j])));
        }
        i += 1;
    }
    let updated = match latest_exec(&sorted) {
        Some(t) => t,
        None => fallback,
    };
    let id = match previous {
        Some(f) => text_of(f.id.as_str()),
        None => {
            let mut v = chars_of(base.as_str());
            push_str(&mut v, "/atom.xml");
            string_of(v.as_slice())
        },
    };
    let title = match previous {
        Some(f) => text_of(f.title.as_str()),
        None => String::from_str("Blog"),
    };
    let author = match previous {
        Some(f) => text_of(f.author.name.as_str()),
        None => String::from_str("Unknown"),
    };
    let logo = match previous {
        Some(f) => opt_string_copy(&f.logo),
        None => None,
    };
    let subtitle = match previous {
        Some(f) => opt_string_copy(&f.subtitle),
        None => None,
    };
    let r = Feed {
        id,
        title,
        updated,
        author: Author { name: author },
        link: Link { href: text_of(base.as_str()), rel: String::from_str("alternate") },
        logo,
        subtitle,
        entries,
    };
    proof {
        assert(r@.entries =~= feed_spec(
            blog_url@,
            post_views(posts@),
            opt_feed_view(previous),
            fallback@,
        ).entries);
    }
    r
}

/// The feed for the posts: newest first, updated at the latest post's last update; without
/// posts, at the previous feed's update time, or the current time when there is no previous
/// feed.
pub fn build_feed_from_blog_posts(
    blog_url: &str,
    posts: &Vec<BlogPost>,
    previous: Option<&Feed>,
) -> (r: Feed)
    ensures
        r@ == feed_spec(
            blog_url@,
            post_views(posts@),
            opt_feed_view(previous),
            match previous {
                Some(f) => f@.updated,
                None => r@.updated,
            },
        ),
        previous is None && posts@.len() == 0 ==> r@.updated.offset == 0,
{
    let fallback = match previous {
        Some(f) => f.updated,
        None => now_utc(),
    };
    let r = build_feed_at(blog_url, posts, previous, fallback);
    proof {
        if previous is None {
            if latest(sort_posts(post_views(posts@))) is Some {
            } else {
                assert(r@.updated == fallback@);
            }
        }
        if posts@.len() == 0 {
            assert(post_views(posts@) =~= Seq::<BlogPostV>::empty());
        }
    }
    r
}


/// The Atom namespace.
pub const ATOM_NAMESPACE: &'static str = "http://www.w3.org/2005/Atom";

/// An element holding escaped text.
pub open spec fn text_elem(name: Seq<char>, text: Seq<char>) -> Seq<char> {
    start_tag(name, seq![]) + xml_escape(text) + end_tag(name)
}

/// The XML of one entry: id, title, update and publication times, link, summary (an empty
/// element when there is none).
pub open spec fn entry_xml(e: EntryV) -> Seq<char> {
    start_tag("entry"@, seq![]) + text_elem("id"@, e.id) + text_elem("title"@, e.title)
        + text_elem("updated"@, rfc3339_text(e.updated)) + match e.published {
        Some(p) => text_elem("published"@, rfc3339_text(p)),
        None => seq![],
    } + empty_tag("link"@, seq![("href"@, e.href), ("rel"@, "alternate"@)]) + if e.summary.len()
        == 0 {
        empty_tag("summary"@, seq![])
    } else {
        text_elem("summary"@, e.summary)
    } + end_tag("entry"@)
}

pub open spec fn entries_xml(es: Seq<EntryV>) -> Seq<char>
    decreases es.len(),
{
    if es.len() == 0 {
        seq![]
    } else {
        entries_xml(es.drop_last()) + entry_xml(es.last())
    }
}

pub open spec fn opt_text_elem(name: Seq<char>, o: Option<Seq<char>>) -> Seq<char> {
    match o {
        Some(t) => text_elem(name, t),
        None => seq![],
    }
}

/// The Atom XML of a feed.
pub open spec fn atom_xml(f: FeedV) -> Seq<char> {
    decl_text("1.0"@, "UTF-8"@) + start_tag("feed"@, seq![("xmlns"@, ATOM_NAMESPACE@)])
        + text_elem("id"@, f.id) + text_elem("title"@, f.title) + text_elem(
        "updated"@,
        rfc3339_text(f.updated),
    ) + start_tag("author"@, seq![]) + text_elem("name"@, f.author) + end_tag("author"@)
        + empty_tag("link"@, seq![("href"@, f.href)]) + opt_text_elem("logo"@, f.logo)
        + opt_text_elem("subtitle"@, f.subtitle) + entries_xml(f.entries) + end_tag("feed"@)
}

/// The XML writer failed. Writing into memory never fails, so [`generate`] never returns it.
#[derive(Debug, Clone, Copy, PartialEq, Eq, Structural)]
pub enum FeedXmlError {
    Write,
}

fn put(out: &mut Vec<char>, piece: Option<String>) -> (ok: bool)
    ensures
        ok <==> piece is Some,
        ok ==> final(out)@ == old(out)@ + piece->0@,
{
    match piece {
        Some(p) => {
            push_str(out, p.as_str());
            true
        },
        None => false,
    }
}

fn no_attrs() -> (r: Vec<(String, String)>)
    ensures
        pair_views(r@) == Seq::<(Seq<char>, Seq<char>)>::empty(),
{
    let r: Vec<(String, String)> = Vec::new();
    proof {
        assert(pair_views(r@) =~= Seq::<(Seq<char>, Seq<char>)>::empty());
    }
    r
}

fn put_text_elem(out: &mut Vec<char>, name: &str, text: &str) -> (ok: bool)
    ensures
        ok,
        final(out)@ == old(out)@ + text_elem(name@, text@),
{
    let none = no_attrs();
    if !put(out, write_start(name, &none)) {
        return false;
    }
    if !put(out, write_text(text)) {
        return false;
    }
    if !put(out, write_end(name)) {
        return false;
    }
    proof {
        assert(out@ =~= old(out)@ + text_elem(name@, text@));
    }
    true
}

/// The start of an entry's XML: its tag, id, title, update and publication times.
pub open spec fn entry_head_xml(e: EntryV) -> Seq<char> {
    start_tag("entry"@, seq![]) + text_elem("id"@, e.id) + text_elem("title"@, e.title)
        + text_elem("updated"@, rfc3339_text(e.updated)) + match e.published {
        Some(p) => text_elem("published"@, rfc3339_text(p)),
        None => seq![],
    }
}

/// The rest of an entry's XML: link, summary and end tag.
pub open spec fn entry_tail_xml(e: EntryV) -> Seq<char> {
    empty_tag("link"@, seq![("href"@, e.href), ("rel"@, "alternate"@)]) + if e.summary.len()
        == 0 {
        empty_tag("summary"@, seq![])
    } else {
        text_elem("summary"@, e.summary)
    } + end_tag("entry"@)
}

fn put_entry_head(out: &mut Vec<char>, e: &Entry) -> (ok: bool)
    ensures
        ok,
        final(out)@ == old(out)@ + entry_head_xml(e@),
{
    let none = no_attrs();
    if !put(out, write_start("entry", &none)) {
        return false;
    }
    if !put_text_elem(out, "id", e.id.as_str()) {
        return false;
    }
    if !put_text_elem(out, "title", e.title.as_str()) {
        return false;
    }
    let updated = format_rfc3339(&e.updated);
    if !put_text_elem(out, "updated", updated.as_str()) {
        return false;
    }
    let ghost o2 = out@;
    proof {
        assert(o2 =~= old(out)@ + start_tag("entry"@, seq![]) + text_elem("id"@, e@.id)
            + text_elem("title"@, e@.title) + text_elem("updated"@, rfc3339_text(e@.updated)));
    }
    match e.published {
        Some(p) => {
            let published = format_rfc3339(&p);
            if !put_text_elem(out, "published", published.as_str()) {
                return false;
            }
            proof {
                assert(out@ =~= old(out)@ + entry_head_xml(e@));
            }
        },
        None => {
            proof {
                assert(out@ =~= old(out)@ + entry_head_xml(e@));
            }
        },
    }
    true
}

fn put_entry_tail(out: &mut Vec<char>, e: &Entry) -> (ok: bool)
    ensures
        ok,
        final(out)@ == old(out)@ + entry_tail_xml(e@),
{
    let none = no_attrs();
    let link_attrs = vec![
        (String::from_str("href"), text_of(e.link.href.as_str())),
        (String::from_str("rel"), String::from_str("alternate")),
    ];
    proof {
        assert(pair_views(link_attrs@) =~= seq![("href"@, e@.href), ("rel"@, "alternate"@)]);
    }
    if !put(out, write_empty("link", &link_attrs)) {
        return false;
    }
    let ghost o4 = out@;
    if e.summary.as_str().is_empty() {
        if !put(out, write_empty("summary", &none)) {
            return false;
        }
    } else {
        if !put_text_elem(out, "summary", e.summary.as_str()) {
            return false;
        }
    }
    let ghost o5 = out@;
    proof {
        assert(o5 =~= o4 + if e@.summary.len() == 0 {
            empty_tag("summary"@, seq![])
        } else {
            text_elem("summary"@, e@.summary)
        });
    }
    if !put(out, write_end("entry")) {
        return false;
    }
    proof {
        assert(out@ =~= old(out)@ + entry_tail_xml(e@));
    }
    true
}

fn put_entry(out: &mut Vec<char>, e: &Entry) -> (ok: bool)
    ensures
        ok,
        final(out)@ == old(out)@ + entry_xml(e@),
{
    if !put_entry_head(out, e) {
        return false;
    }
    if !put_entry_tail(out, e) {
        return false;
    }
    proof {
        assert(entry_xml(e@) =~= entry_head_xml(e@) + entry_tail_xml(e@));
        assert(out@ =~= old(out)@ + entry_xml(e@));
    }
    true
}

/// The Atom XML of a feed, entries in order, each with its publication time when known; always
/// produced.
pub fn generate(feed: &Feed) -> (r: Result<String, FeedXmlError>)
    ensures
        r matches Ok(s) && s@ == atom_xml(feed@),
{
    let mut out: Vec<char> = Vec::new();
    if !put(&mut out, write_decl("1.0", "UTF-8")) {
        return Err(FeedXmlError::Write);
    }
    let ns = vec![(String::from_str("xmlns"), String::from_str(ATOM_NAMESPACE))];
    proof {
        assert(pair_views(ns@) =~= seq![("xmlns"@, ATOM_NAMESPACE@)]);
    }
    if !put(&mut out, write_start("feed", &ns)) {
        return Err(FeedXmlError::Write);
    }
    if !put_text_elem(&mut out, "id", feed.id.as_str()) {
        return Err(FeedXmlError::Write);
    }
    if !put_text_elem(&mut out, "title", feed.title.as_str()) {
        return Err(FeedXmlError::Write);
    }
    let updated = format_rfc3339(&feed.updated);
    if !put_text_elem(&mut out, "updated", updated.as_str()) {
        return Err(FeedXmlError::Write);
    }
    let none = no_attrs();
    if !put(&mut out, write_start("author", &none)) {
        return Err(FeedXmlError::Write);
    }
    if !put_text_elem(&mut out, "name", feed.author.name.as_str()) {
        return Err(FeedXmlError::Write);
    }
    if !put(&mut out, write_end("author")) {
        return Err(FeedXmlError::Write);
    }
    let link_attrs = vec![(String::from_str("href"), text_of(feed.link.href.as_str()))];
    proof {
        assert(pair_views(link_attrs@) =~= seq![("href"@, feed@.href)]);
    }
    if !put(&mut out, write_empty("link", &link_attrs)) {
        return Err(FeedXmlError::Write);
    }
    let ghost head = out@;
    match &feed.logo {
        Some(logo) => {
            if !put_text_elem(&mut out, "logo", logo.as_str()) {
                return Err(FeedXmlError::Write);
            }
        },
        None => {},
    }
    let ghost h1 = out@;
    match &feed.subtitle {
        Some(subtitle) => {
            if !put_text_elem(&mut out, "subtitle", subtitle.as_str()) {
                return Err(FeedXmlError::Write);
            }
        },
        None => {},
    }
    let ghost h2 = out@;
    proof {
        assert(h1 =~= head + opt_text_elem("logo"@, feed@.logo));
        assert(h2 =~= h1 + opt_text_elem("subtitle"@, feed@.subtitle));
    }
    let mut i: usize = 0;
    let ghost ev = entry_views(feed.entries@);
    while i < feed.entries.len()
        invariant
            i <= feed.entries.len(),
            ev == entry_views(feed.entries@),
            out@ == h2 + entries_xml(ev.take(i as int)),
        decreases feed.entries.len() - i,
    {
        proof {
            assert(ev.take(i + 1).drop_last() =~= ev.take(i as int));
            assert(ev.take(i + 1).last() == feed.entries@[i as int]@);
        }
        let ghost before = out@;
        if !put_entry(&mut out, &feed.entries[i]) {
            return Err(FeedXmlError::Write);
        }
        proof {
            assert(out@ =~= h2 + entries_xml(ev.take(i + 1)));
        }
        i += 1;
    }
    if !put(&mut out, write_end("feed")) {
        return Err(FeedXmlError::Write);
    }
    proof {
        assert(ev.take(feed.entries@.len() as int) =~= ev);
        assert(out@ =~= atom_xml(feed@));
    }
    Ok(string_of(out.as_slice()))
}


proof fn lemma_insert_pos(v: Seq<BlogPostV>, x: BlogPostV)
    ensures
        0 <= insert_pos(v, x) <= v.len(),
        forall|i: int| 0 <= i < insert_pos(v, x) ==> !post_before(x, #[trigger] v[i]),
        insert_pos(v, x) < v.len() ==> post_before(x, v[insert_pos(v, x)]),
    decreases v.len(),
{
    if v.len() > 0 && !post_before(x, v[0]) {
        lemma_insert_pos(v.drop_first(), x);
        assert forall|i: int| 0 <= i < insert_pos(v, x) implies !post_before(x, #[trigger] v[i]) by {
            if i > 0 {
                assert(v[i] == v.drop_first()[i - 1]);
            }
        }
    }
}

proof fn lemma_sorted_newest_first(s: Seq<BlogPostV>)
    ensures
        sort_posts(s).len() == s.len(),
        sort_posts(s).to_multiset() == s.to_multiset(),
        forall|i: int, j: int|
            0 <= i < j < s.len() ==> (#[trigger] sort_posts(s)[i]).last_updated.instant() >= (
            #[trigger] sort_posts(s)[j]).last_updated.instant(),
    decreases s.len(),
{
    broadcast use vstd::seq_lib::group_to_multiset_ensures;

    if s.len() == 0 {
        assert(sort_posts(s) =~= s);
    } else {
        let v = sort_posts(s.drop_last());
        lemma_sorted_newest_first(s.drop_last());
        let x = s.last();
        lemma_insert_pos(v, x);
        let k = insert_pos(v, x);
        let w = v.insert(k, x);
        assert(sort_posts(s) == w);
        crate::order::lemma_insert_to_multiset(v, k, x);
        assert(s.drop_last().push(x) =~= s);
        assert forall|i: int, j: int| 0 <= i < j < w.len() implies (#[trigger] w[i]).last_updated.instant()
            >= (#[trigger] w[j]).last_updated.instant() by {
            if j < k {
                assert(w[i] == v[i] && w[j] == v[j]);
            } else if j == k {
                assert(w[i] == v[i]);
                assert(!post_before(x, v[i]));
            } else if i < k {
                assert(w[i] == v[i] && w[j] == v[j - 1]);
            } else if i == k {
                assert(w[j] == v[j - 1]);
                assert(post_before(x, v[k]));
                if j - 1 > k {
                    assert(v[k].last_updated.instant() >= v[j - 1].last_updated.instant());
                }
            } else {
                assert(w[i] == v[i - 1] && w[j] == v[j - 1]);
            }
        }
    }
}

proof fn lemma_post_before_order(a: BlogPostV, b: BlogPostV, c: BlogPostV)
    ensures
        !(post_before(a, b) && post_before(b, a)),
        post_before(a, b) && post_before(b, c) ==> post_before(a, c),
{
    crate::order::lemma_path_lt_total(a.path, b.path);
    if post_before(a, b) && post_before(b, c) && path_lt(a.path, b.path) && path_lt(b.path, c.path) {
        crate::order::lemma_path_lt_transitive(a.path, b.path, c.path);
    }
}

proof fn lemma_sorted_by_post_before(s: Seq<BlogPostV>)
    ensures
        sort_posts(s).len() == s.len(),
        forall|i: int, j: int|
            0 <= i < j < s.len() ==> !post_before(
                #[trigger] sort_posts(s)[j],
                #[trigger] sort_posts(s)[i],
            ),
    decreases s.len(),
{
    if s.len() > 0 {
        let v = sort_posts(s.drop_last());
        lemma_sorted_by_post_before(s.drop_last());
        let x = s.last();
        lemma_insert_pos(v, x);
        let k = insert_pos(v, x);
        let w = v.insert(k, x);
        assert(sort_posts(s) == w);
        assert forall|i: int, j: int| 0 <= i < j < w.len() implies !post_before(
            #[trigger] w[j],
            #[trigger] w[i],
        ) by {
            if j < k {
                assert(w[i] == v[i] && w[j] == v[j]);
            } else if j == k {
                assert(w[i] == v[i]);
                assert(!post_before(x, v[i]));
            } else if i < k {
                assert(w[i] == v[i] && w[j] == v[j - 1]);
            } else if i == k {
                assert(w[j] == v[j - 1]);
                assert(post_before(x, v[k]));
                lemma_post_before_order(v[j - 1], x, v[k]);
                lemma_post_before_order(x, v[k], v[k]);
                if j - 1 > k {
                    assert(!post_before(v[j - 1], v[k]));
                }
            } else {
                assert(w[i] == v[i - 1] && w[j] == v[j - 1]);
            }
        }
    } else {
        assert(sort_posts(s) =~= s);
    }
}

/// Feed entries at the same update instant come in path order: an entry is never listed after
/// one that its post would precede (updated later, or at the same instant with a path that comes
/// first by component).
pub proof fn law_feed_ties_in_path_order(
    blog_url: Seq<char>,
    posts: Seq<BlogPostV>,
    previous: Option<FeedV>,
    fallback: TimeV,
)
    ensures
        ({
            let sorted = sort_posts(posts);
            let es = feed_spec(blog_url, posts, previous, fallback).entries;
            &&& es.len() == sorted.len()
            &&& forall|i: int| 0 <= i < es.len() ==> (#[trigger] es[i]).updated == sorted[i].last_updated
            &&& forall|i: int, j: int|
                0 <= i < j < sorted.len() ==> !post_before(#[trigger] sorted[j], #[trigger] sorted[i])
        }),
{
    lemma_sorted_by_post_before(posts);
}

/// The feed has one entry per post, the most recently updated first: its entries are those of
/// a reordering of the posts, each dated no earlier than the ones after it.
pub proof fn law_feed_entries_newest_first(
    blog_url: Seq<char>,
    posts: Seq<BlogPostV>,
    previous: Option<FeedV>,
    fallback: TimeV,
)
    ensures
        ({
            let es = feed_spec(blog_url, posts, previous, fallback).entries;
            let sorted = sort_posts(posts);
            &&& es.len() == posts.len()
            &&& sorted.to_multiset() == posts.to_multiset()
            &&& forall|i: int|
                0 <= i < es.len() ==> #[trigger] es[i] == entry_of(
                    trim_end_char(blog_url, '/'),
                    sorted[i],
                )
            &&& forall|i: int, j: int|
                0 <= i < j < es.len() ==> (#[trigger] es[i]).updated.instant() >= (
                #[trigger] es[j]).updated.instant()
        }),
{
    lemma_sorted_newest_first(posts);
    let sorted = sort_posts(posts);
    let es = feed_spec(blog_url, posts, previous, fallback).entries;
    assert forall|i: int, j: int| 0 <= i < j < es.len() implies (#[trigger] es[i]).updated.instant()
        >= (#[trigger] es[j]).updated.instant() by {
        assert(es[i].updated == sorted[i].last_updated);
        assert(es[j].updated == sorted[j].last_updated);
    }
}

proof fn lemma_latest(s: Seq<BlogPostV>)
    ensures
        s.len() == 0 <==> latest(s) is None,
        latest(s) matches Some(t) ==> (exists|k: int|
            0 <= k < s.len() && #[trigger] s[k].last_updated == t) && forall|j: int|
            0 <= j < s.len() ==> (#[trigger] s[j]).last_updated.instant() <= t.instant(),
    decreases s.len(),
{
    if s.len() > 0 {
        let t = s.drop_last();
        lemma_latest(t);
        let l = latest(s)->0;
        if latest(t) is Some {
            let k0 = choose|k: int| 0 <= k < t.len() && #[trigger] t[k].last_updated == latest(
                t,
            )->0;
            assert(s[k0] == t[k0]);
        }
        assert(s[s.len() - 1] == s.last());
        assert forall|j: int| 0 <= j < s.len() implies (#[trigger] s[j]).last_updated.instant()
            <= l.instant() by {
            if j < s.len() - 1 {
                assert(s[j] == t[j]);
            }
        }
    }
}

proof fn lemma_occurs_in_cat(a: Seq<char>, b: Seq<char>, p: Seq<char>, i: int)
    ensures
        occurs_at(a, p, i) ==> occurs_at(a + b, p, i),
        occurs_at(b, p, i) ==> occurs_at(a + b, p, i + a.len()),
{
    if occurs_at(a, p, i) {
        assert((a + b).subrange(i, i + p.len()) =~= a.subrange(i, i + p.len()));
    }
    if occurs_at(b, p, i) {
        assert((a + b).subrange(i + a.len(), i + a.len() + p.len()) =~= b.subrange(
            i,
            i + p.len(),
        ));
    }
}

/// Where the `k`-th entry's XML stands in the XML of all entries.
proof fn lemma_entry_in_entries(es: Seq<EntryV>, k: int) -> (off: int)
    requires
        0 <= k < es.len(),
    ensures
        occurs_at(entries_xml(es), entry_xml(es[k]), off),
    decreases es.len(),
{
    let x = entry_xml(es[k]);
    let front = entries_xml(es.drop_last());
    if k == es.len() - 1 {
        assert(front + x == entries_xml(es));
        assert((front + x).subrange(front.len() as int, (front.len() + x.len()) as int) =~= x);
        front.len() as int
    } else {
        let off = lemma_entry_in_entries(es.drop_last(), k);
        assert(es.drop_last()[k] == es[k]);
        lemma_occurs_in_cat(front, entry_xml(es.last()), x, off);
        off
    }
}

/// Every entry's summary is written: an entry with a summary has the element `<summary>`
/// holding its escaped text, an entry without one the empty element `<summary/>`; so does its
/// entry's XML, and so does the whole feed's XML, where each entry's XML stands whole.
pub proof fn law_feed_summaries_written(f: FeedV, k: int)
    requires
        0 <= k < f.entries.len(),
    ensures
        contains(atom_xml(f), entry_xml(f.entries[k])),
        f.entries[k].summary.len() > 0 ==> contains(
            entry_xml(f.entries[k]),
            "<summary>"@ + xml_escape(f.entries[k].summary) + "</summary>"@,
        ),
        f.entries[k].summary.len() > 0 ==> contains(
            atom_xml(f),
            "<summary>"@ + xml_escape(f.entries[k].summary) + "</summary>"@,
        ),
        f.entries[k].summary.len() == 0 ==> contains(entry_xml(f.entries[k]), "<summary/>"@),
        f.entries[k].summary.len() == 0 ==> contains(atom_xml(f), "<summary/>"@),
{
    let e = f.entries[k];
    let x = entry_xml(e);
    reveal_strlit("<");
    reveal_strlit(">");
    reveal_strlit("</");
    reveal_strlit("/>");
    reveal_strlit("summary");
    reveal_strlit("<summary>");
    reveal_strlit("</summary>");
    reveal_strlit("<summary/>");
    assert(attrs_text(Seq::<(Seq<char>, Seq<char>)>::empty()) == Seq::<char>::empty());
    let piece = if e.summary.len() == 0 {
        empty_tag("summary"@, seq![])
    } else {
        text_elem("summary"@, e.summary)
    };
    if e.summary.len() == 0 {
        assert(piece =~= "<summary/>"@);
    } else {
        assert(piece =~= "<summary>"@ + xml_escape(e.summary) + "</summary>"@);
    }
    let head = entry_head_xml(e) + empty_tag("link"@, seq![("href"@, e.href), ("rel"@, "alternate"@)]);
    assert(x =~= head + piece + end_tag("entry"@));
    lemma_occurs_in_cat(head, piece + end_tag("entry"@), piece, 0);
    assert(occurs_at(piece + end_tag("entry"@), piece, 0)) by {
        assert((piece + end_tag("entry"@)).subrange(0, piece.len() as int) =~= piece);
    }
    assert(head + (piece + end_tag("entry"@)) =~= x);
    assert(occurs_at(x, piece, head.len() as int));
    let off = lemma_entry_in_entries(f.entries, k);
    let pre = decl_text("1.0"@, "UTF-8"@) + start_tag("feed"@, seq![("xmlns"@, ATOM_NAMESPACE@)])
        + text_elem("id"@, f.id) + text_elem("title"@, f.title) + text_elem(
        "updated"@,
        rfc3339_text(f.updated),
    ) + start_tag("author"@, seq![]) + text_elem("name"@, f.author) + end_tag("author"@)
        + empty_tag("link"@, seq![("href"@, f.href)]) + opt_text_elem("logo"@, f.logo)
        + opt_text_elem("subtitle"@, f.subtitle);
    let all = entries_xml(f.entries);
    assert(atom_xml(f) == pre + all + end_tag("feed"@));
    lemma_occurs_in_cat(pre, all, x, off);
    lemma_occurs_in_cat(pre + all, end_tag("feed"@), x, off + pre.len());
    let at = off + pre.len();
    assert(occurs_at(atom_xml(f), x, at));
    // the piece inside the entry, inside the feed
    assert(atom_xml(f).subrange(at, at + x.len()) == x);
    assert(atom_xml(f).subrange(at + head.len(), at + head.len() + piece.len()) =~= x.subrange(
        head.len() as int,
        (head.len() + piece.len()) as int,
    ));
    assert(occurs_at(atom_xml(f), piece, at + head.len()));
}

/// Each feed entry comes from one post: its id and link are the post's page under the blog URL
/// (trailing slashes dropped), with relation `alternate`; its title, summary, update and
/// publication times are the post's.
pub proof fn law_feed_entry_fields(
    blog_url: Seq<char>,
    posts: Seq<BlogPostV>,
    previous: Option<FeedV>,
    fallback: TimeV,
    i: int,
)
    requires
        0 <= i < posts.len(),
    ensures
        ({
            let f = feed_spec(blog_url, posts, previous, fallback);
            let p = sort_posts(posts)[i];
            let page = trim_end_char(blog_url, '/') + seq!['/'] + std_with_extension(
                p.path,
                "html"@,
            );
            &&& posts.to_multiset().contains(p)
            &&& f.entries[i].id == page
            &&& f.entries[i].href == page
            &&& f.entries[i].rel == "alternate"@
            &&& f.entries[i].title == p.title
            &&& f.entries[i].summary == p.summary
            &&& f.entries[i].updated == p.last_updated
            &&& f.entries[i].published == p.publication_date
        }),
{
    broadcast use vstd::seq_lib::group_to_multiset_ensures;

    lemma_sorted_newest_first(posts);
    let sorted = sort_posts(posts);
    assert(sorted.contains(sorted[i]));
}

/// The feed's header: id, title, author, logo and subtitle of the previous feed when there is
/// one, else `<base>/atom.xml`, `Blog`, `Unknown`, none and none; its link is the blog URL
/// without trailing slashes; it was last updated at the latest update of a post (a post has
/// that time and none is later), or at `fallback` when there are no posts.
pub proof fn law_feed_header(
    blog_url: Seq<char>,
    posts: Seq<BlogPostV>,
    previous: Option<FeedV>,
    fallback: TimeV,
)
    ensures
        ({
            let f = feed_spec(blog_url, posts, previous, fallback);
            let base = trim_end_char(blog_url, '/');
            &&& f.href == base
            &&& f.rel == "alternate"@
            &&& f.id == match previous {
                Some(pf) => pf.id,
                None => base + "/atom.xml"@,
            }
            &&& f.title == match previous {
                Some(pf) => pf.title,
                None => "Blog"@,
            }
            &&& f.author == match previous {
                Some(pf) => pf.author,
                None => "Unknown"@,
            }
            &&& f.logo == match previous {
                Some(pf) => pf.logo,
                None => None,
            }
            &&& f.subtitle == match previous {
                Some(pf) => pf.subtitle,
                None => None,
            }
            &&& posts.len() == 0 ==> f.updated == fallback
            &&& posts.len() > 0 ==> (exists|k: int|
                0 <= k < posts.len() && #[trigger] posts[k].last_updated == f.updated)
            &&& forall|j: int|
                0 <= j < posts.len() ==> (#[trigger] posts[j]).last_updated.instant()
                    <= f.updated.instant()
        }),
{
    broadcast use vstd::seq_lib::group_to_multiset_ensures;

    lemma_sorted_newest_first(posts);
    let sorted = sort_posts(posts);
    lemma_latest(sorted);
    let f = feed_spec(blog_url, posts, previous, fallback);
    if posts.len() > 0 {
        let k = choose|k: int| 0 <= k < sorted.len() && #[trigger] sorted[k].last_updated
            == f.updated;
        assert(sorted.contains(sorted[k]));
        assert(posts.to_multiset().count(sorted[k]) > 0);
        assert(posts.contains(sorted[k]));
        let k2 = choose|k2: int| 0 <= k2 < posts.len() && posts[k2] == sorted[k];
        assert(posts[k2].last_updated == f.updated);
        assert forall|j: int| 0 <= j < posts.len() implies (#[trigger] posts[j]).last_updated.instant()
            <= f.updated.instant() by {
            assert(posts.contains(posts[j]));
            assert(sorted.to_multiset().count(posts[j]) > 0);
            assert(sorted.contains(posts[j]));
            let m = choose|m: int| 0 <= m < sorted.len() && sorted[m] == posts[j];
            assert(sorted[m].last_updated.instant() <= f.updated.instant());
        }
    }
}

} // verus!

