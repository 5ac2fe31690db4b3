//! Blog posts and the store that tracks them by path and by git blob id.
use vstd::prelude::*;
use crate::paths::{
    opt_text, path_file_name, path_file_stem, path_first_component, path_parent,
    path_with_file_name, std_file_name, std_file_stem, std_first_component, std_parent,
    std_with_file_name,
};
use crate::text::{chars_of, ends_with, ends_with_exec, slice_to_vec, string_of};
use crate::time::{TimeV, Timestamp};
use crate::markdown::{article_parts, opt_index, opt_str, opt_time, parse_content_metadata};
use crate::assoc::{assoc_map, keys_unique};
use crate::store_index::{
    oid_insert, oid_lookup, oid_remove_key, oid_retain_not_value, path_entries, path_insert,
    path_lookup, path_remove_key, path_retain_not_value,
};

verus! {

/// Value of the big-endian bytes `s`.
pub open spec fn be_value(s: Seq<u8>) -> nat
    decreases s.len(),
{
    if s.len() == 0 {
        0
    } else {
        be_value(s.drop_last()) * 256 + s.last() as nat
    }
}

pub open spec fn pow256(k: nat) -> nat
    decreases k,
{
    if k == 0 {
        1
    } else {
        256 * pow256((k - 1) as nat)
    }
}

/// A SHA-1 git object id: its 20 bytes as three big-endian numbers.
#[derive(Clone, Copy, Debug, PartialEq, Eq, Hash, Structural)]
pub struct ObjectId {
    pub hi: u64,
    pub mid: u64,
    pub lo: u32,
}

fn be_chunk(b: &[u8], from: usize, to: usize) -> (r: u64)
    requires
        from <= to <= b.len(),
        to - from <= 8,
    ensures
        r == be_value(b@.subrange(from as int, to as int)),
{
    let mut acc: u64 = 0;
    let mut i = from;
    proof {
        lemma_pow256_mono(0, 8);
        assert(b@.subrange(from as int, from as int) =~= Seq::<u8>::empty());
    }
    while i < to
        invariant
            from <= i <= to <= b.len(),
            to - from <= 8,
            acc == be_value(b@.subrange(from as int, i as int)),
            acc < pow256((i - from) as nat),
            pow256((i - from) as nat) <= pow256(8),
        decreases to - i,
    {
        proof {
            let s = b@.subrange(from as int, i + 1);
            assert(s.drop_last() =~= b@.subrange(from as int, i as int));
            assert(s.last() == b@[i as int]);
            let k = (i - from) as nat;
            lemma_pow256_mono(k + 1, 8);
            reveal_with_fuel(pow256, 9);
            assert(pow256(8) == 18446744073709551616);
            let x = b@[i as int] as int;
            let p = pow256(k) as int;
            assert(acc * 256 + x < p * 256) by (nonlinear_arith)
                requires
                    acc < p,
                    0 <= x < 256,
            ;
        }
        acc = acc * 256 + b[i] as u64;
        i += 1;
    }
    acc
}

proof fn lemma_pow256_mono(a: nat, b: nat)
    requires
        a <= b,
    ensures
        pow256(a) <= pow256(b),
    decreases b,
{
    if a < b {
        lemma_pow256_mono(a, (b - 1) as nat);
    }
}

impl ObjectId {
    /// The id with these 20 bytes; none for any other length.
    pub fn from_bytes(b: &[u8]) -> (r: Option<ObjectId>)
        ensures
            r is Some <==> b@.len() == 20,
            r matches Some(o) ==> o.hi == be_value(b@.subrange(0, 8)) && o.mid == be_value(
                b@.subrange(8, 16),
            ) && o.lo == be_value(b@.subrange(16, 20)),
    {
        if b.len() != 20 {
            return None;
        }
        let hi = be_chunk(b, 0, 8);
        let mid = be_chunk(b, 8, 16);
        let lo = be_chunk(b, 16, 20);
        proof {
            reveal_with_fuel(pow256, 5);
            assert(pow256(4) == 4294967296);
            lemma_be_bound(b@.subrange(16, 20));
        }
        Some(ObjectId { hi, mid, lo: lo as u32 })
    }
}

proof fn lemma_be_bound(s: Seq<u8>)
    ensures
        be_value(s) < pow256(s.len()),
    decreases s.len(),
{
    if s.len() > 0 {
        lemma_be_bound(s.drop_last());
        let v = be_value(s.drop_last()) as int;
        let p = pow256((s.len() - 1) as nat) as int;
        let x = s.last() as int;
        assert(v * 256 + x < p * 256) by (nonlinear_arith)
            requires
                v < p,
                0 <= x < 256,
        ;
    }
}

/// Top-level source folder of a path: the first component of its parent, when that parent is
/// not empty.
pub open spec fn section_of(p: Seq<char>) -> Option<Seq<char>> {
    match std_parent(p) {
        Some(parent) => if parent.len() == 0 {
            None
        } else {
            std_first_component(parent)
        },
        None => None,
    }
}

/// Top-level folder name for a markdown source path (`tech/post.md` → `Some("tech")`).
pub fn section_from_path(path: &str) -> (r: Option<String>)
    ensures
        opt_text(r) == section_of(path@),
{
    match path_parent(path) {
        Some(parent) => if parent.as_str().is_empty() {
            None
        } else {
            path_first_component(parent.as_str())
        },
        None => None,
    }
}

/// The file name ends in `.draft.md`.
pub open spec fn is_draft(p: Seq<char>) -> bool {
    match std_file_name(p) {
        Some(n) => ends_with(n, ".draft.md"@),
        None => false,
    }
}

pub fn is_draft_md(path: &str) -> (r: bool)
    ensures
        r == is_draft(path@),
{
    match path_file_name(path) {
        Some(n) => {
            let nc = chars_of(n.as_str());
            let suffix = chars_of(".draft.md");
            ends_with_exec(nc.as_slice(), suffix.as_slice())
        },
        None => false,
    }
}

/// `post.draft.md` → `post.md` in the same folder.
pub open spec fn published_of_draft(p: Seq<char>) -> Option<Seq<char>> {
    match std_file_name(p) {
        Some(n) => if ends_with(n, ".draft.md"@) {
            Some(
                std_with_file_name(
                    p,
                    n.take(n.len() - ".draft.md"@.len()) + ".md"@,
                ),
            )
        } else {
            None
        },
        None => None,
    }
}

/// A path has a published counterpart exactly when it is a draft; the counterpart is the path
/// with its file name changed from `<stem>.draft.md` to `<stem>.md`.
pub proof fn law_draft_published_path(p: Seq<char>)
    ensures
        published_of_draft(p) is Some <==> is_draft(p),
        is_draft(p) ==> ({
            let n = std_file_name(p)->0;
            let stem = n.take(n.len() - 9);
            &&& n == stem + ".draft.md"@
            &&& published_of_draft(p)->0 == std_with_file_name(p, stem + ".md"@)
        }),
{
    if is_draft(p) {
        let n = std_file_name(p)->0;
        reveal_strlit(".draft.md");
        assert(n == n.take(n.len() - 9) + ".draft.md"@) by {
            assert(n.skip(n.len() - 9) == ".draft.md"@);
            assert(n =~= n.take(n.len() - 9) + n.skip(n.len() - 9));
        }
    }
}

/// `post.draft.md` → `post.md`: the published path is in the draft's folder (same parent),
/// its file name the draft's with `.draft.md` replaced by `.md`.
pub fn published_path_from_draft(draft: &str) -> (r: Option<String>)
    ensures
        opt_text(r) == published_of_draft(draft@),
        r is Some <==> is_draft(draft@),
        r matches Some(q) ==> ({
            let n = std_file_name(draft@)->0;
            &&& std_parent(q@) == std_parent(draft@)
            &&& std_file_name(q@) == Some(n.take(n.len() - 9) + ".md"@)
        }),
{
    proof {
        reveal_strlit(".draft.md");
        reveal_strlit(".md");
    }
    let name = match path_file_name(draft) {
        Some(n) => n,
        None => return None,
    };
    let nc = chars_of(name.as_str());
    let suffix = chars_of(".draft.md");
    if !ends_with_exec(nc.as_slice(), suffix.as_slice()) {
        return None;
    }
    let mut stem = slice_to_vec(nc.as_slice(), 0, nc.len() - suffix.len());
    let md = chars_of(".md");
    crate::text::push_all(&mut stem, md.as_slice());
    let new_name = string_of(stem.as_slice());
    proof {
        assert(stem@ =~= nc@.take(nc@.len() - suffix@.len()) + md@);
    }
    Some(path_with_file_name(draft, new_name.as_str()))
}

/// Title for a post without one: its file stem, else `post`.
pub open spec fn fallback_title_of(p: Seq<char>) -> Seq<char> {
    match std_file_stem(p) {
        Some(s) => s,
        None => "post"@,
    }
}

pub fn fallback_title(path: &str) -> (r: String)
    ensures
        r@ == fallback_title_of(path@),
{
    match path_file_stem(path) {
        Some(s) => s,
        None => String::from_str("post"),
    }
}

/// Mathematical content of a [`BlogPost`].
pub struct BlogPostV {
    pub object_id: Option<ObjectId>,
    pub last_updated: TimeV,
    pub publication_date: Option<TimeV>,
    pub title: Seq<char>,
    pub summary: Seq<char>,
    pub path: Seq<char>,
    pub section: Option<Seq<char>>,
}

/// A blog post: where its source is, which blob holds it, its dates, title and summary.
#[derive(Debug, Clone)]
pub struct BlogPost {
    pub object_id: Option<ObjectId>,
    pub last_updated: Timestamp,
    /// `None` until set from Atom or git; use [`BlogPost::effective_publication_date`].
    pub publication_date: Option<Timestamp>,
    pub title: String,
    pub summary: String,
    pub path: String,
    /// Top-level source folder (e.g. `tech` for `tech/post.md`).
    pub section: Option<String>,
}

impl View for BlogPost {
    type V = BlogPostV;

    open spec fn view(&self) -> BlogPostV {
        BlogPostV {
            object_id: self.object_id,
            last_updated: self.last_updated@,
            publication_date: opt_time(self.publication_date),
            title: self.title@,
            summary: self.summary@,
            path: self.path@,
            section: opt_text(self.section),
        }
    }
}

pub fn copy_string(s: &String) -> (r: String)
    ensures
        r@ == s@,
{
    s.clone()
}

pub fn copy_opt_string(s: &Option<String>) -> (r: Option<String>)
    ensures
        opt_text(r) == opt_text(*s),
{
    match s {
        Some(x) => Some(x.clone()),
        None => None,
    }
}

impl BlogPost {
    /// A copy with the same content.
    pub fn duplicate(&self) -> (r: BlogPost)
        ensures
            r@ == self@,
    {
        BlogPost {
            object_id: self.object_id,
            last_updated: self.last_updated,
            publication_date: self.publication_date,
            title: self.title.clone(),
            summary: self.summary.clone(),
            path: self.path.clone(),
            section: copy_opt_string(&self.section),
        }
    }

    pub fn new(path: String, last_updated: Timestamp, title: String, summary: String) -> (r: Self)
        ensures
            r@ == (BlogPostV {
                object_id: None,
                last_updated: last_updated@,
                publication_date: None,
                title: title@,
                summary: summary@,
                path: path@,
                section: section_of(path@),
            }),
    {
        let section = section_from_path(path.as_str());
        BlogPost {
            object_id: None,
            last_updated,
            publication_date: None,
            title,
            summary,
            path,
            section,
        }
    }

    pub fn with_defaults(path: String, last_updated: Timestamp) -> (r: Self)
        ensures
            r@ == (BlogPostV {
                object_id: None,
                last_updated: last_updated@,
                publication_date: None,
                title: fallback_title_of(path@),
                summary: seq![],
                path: path@,
                section: section_of(path@),
            }),
    {
        let section = section_from_path(path.as_str());
        let title = fallback_title(path.as_str());
        BlogPost {
            object_id: None,
            title,
            summary: String::new(),
            path,
            last_updated,
            publication_date: None,
            section,
        }
    }

    /// The publication date when known, else the last update.
    pub fn effective_publication_date(&self) -> (r: Timestamp)
        ensures
            r@ == match self.publication_date {
                Some(d) => d@,
                None => self.last_updated@,
            },
    {
        match self.publication_date {
            Some(d) => d,
            None => self.last_updated,
        }
    }

    pub fn update_from_source(
        &mut self,
        title: String,
        summary: String,
        last_updated: Timestamp,
        path: String,
    )
        ensures
            final(self)@ == (BlogPostV {
                path: path@,
                section: section_of(path@),
                last_updated: last_updated@,
                title: title@,
                summary: summary@,
                ..old(self)@
            }),
    {
        self.section = section_from_path(path.as_str());
        self.path = path;
        self.last_updated = last_updated;
        self.title = title;
        self.summary = summary;
    }

    pub fn from_source(
        path: String,
        title: String,
        summary: String,
        last_updated: Timestamp,
        publication_date: Timestamp,
    ) -> (r: Self)
        ensures
            r@ == (BlogPostV {
                object_id: None,
                last_updated: last_updated@,
                publication_date: Some(publication_date@),
                title: title@,
                summary: summary@,
                path: path@,
                section: section_of(path@),
            }),
    {
        let section = section_from_path(path.as_str());
        BlogPost {
            object_id: None,
            path,
            title,
            summary,
            last_updated,
            publication_date: Some(publication_date),
            section,
        }
    }

    /// Re-reads title, summary and dates from the Markdown source: title and summary are
    /// replaced, dates only when the source gives them.
    pub fn update_from_source_content(&mut self, content: &str, frontmatter_delimiter: &str)
        ensures
            ({
                let p = article_parts(
                    content@,
                    fallback_title_of(old(self)@.path),
                    frontmatter_delimiter@,
                );
                final(self)@ == BlogPostV {
                    title: p.title,
                    summary: p.summary_markdown,
                    publication_date: match p.publication_date {
                        Some(d) => Some(d),
                        None => old(self)@.publication_date,
                    },
                    last_updated: match p.last_modified {
                        Some(d) => d,
                        None => old(self)@.last_updated,
                    },
                    ..old(self)@
                }
            }),
    {
        let fallback = fallback_title(self.path.as_str());
        let (title, summary, publication_date, last_modified) = parse_content_metadata(
            content,
            fallback.as_str(),
            frontmatter_delimiter,
        );
        self.title = title;
        self.summary = summary;
        if let Some(date) = publication_date {
            self.publication_date = Some(date);
        }
        if let Some(date) = last_modified {
            self.last_updated = date;
        }
    }
}

/// Fields to change on a stored post; absent fields stay as they are.
#[derive(Debug, Clone)]
pub struct BlogPostUpdate {
    pub object_id: Option<ObjectId>,
    pub last_updated: Option<Timestamp>,
    pub publication_date: Option<Timestamp>,
    pub title: Option<String>,
    pub summary: Option<String>,
    pub path: Option<String>,
}

impl BlogPostUpdate {
    /// An update that changes nothing.
    pub fn none() -> (r: Self)
        ensures
            r@ == no_update(),
    {
        BlogPostUpdate {
            object_id: None,
            last_updated: None,
            publication_date: None,
            title: None,
            summary: None,
            path: None,
        }
    }
}

/// Mathematical content of a [`BlogPostUpdate`].
pub struct UpdV {
    pub object_id: Option<ObjectId>,
    pub last_updated: Option<TimeV>,
    pub publication_date: Option<TimeV>,
    pub title: Option<Seq<char>>,
    pub summary: Option<Seq<char>>,
    pub path: Option<Seq<char>>,
}

impl View for BlogPostUpdate {
    type V = UpdV;

    open spec fn view(&self) -> UpdV {
        UpdV {
            object_id: self.object_id,
            last_updated: opt_time(self.last_updated),
            publication_date: opt_time(self.publication_date),
            title: opt_text(self.title),
            summary: opt_text(self.summary),
            path: opt_text(self.path),
        }
    }
}

/// An update of the given fields only.
pub open spec fn no_update() -> UpdV {
    UpdV {
        object_id: None,
        last_updated: None,
        publication_date: None,
        title: None,
        summary: None,
        path: None,
    }
}

/// The post after an update: each field given replaces the old one; a new path also sets the
/// section.
pub open spec fn applied(p: BlogPostV, u: UpdV) -> BlogPostV {
    BlogPostV {
        object_id: match u.object_id {
            Some(o) => Some(o),
            None => p.object_id,
        },
        last_updated: match u.last_updated {
            Some(t) => t,
            None => p.last_updated,
        },
        publication_date: match u.publication_date {
            Some(t) => Some(t),
            None => p.publication_date,
        },
        title: match u.title {
            Some(t) => t,
            None => p.title,
        },
        summary: match u.summary {
            Some(t) => t,
            None => p.summary,
        },
        path: match u.path {
            Some(t) => t,
            None => p.path,
        },
        section: match u.path {
            Some(t) => section_of(t),
            None => p.section,
        },
    }
}

impl BlogPost {
    fn apply_update(&mut self, update: BlogPostUpdate)
        ensures
            final(self)@ == applied(old(self)@, update@),
    {
        if let Some(object_id) = update.object_id {
            self.object_id = Some(object_id);
        }
        if let Some(last_updated) = update.last_updated {
            self.last_updated = last_updated;
        }
        if let Some(publication_date) = update.publication_date {
            self.publication_date = Some(publication_date);
        }
        if let Some(title) = update.title {
            self.title = title;
        }
        if let Some(summary) = update.summary {
            self.summary = summary;
        }
        if let Some(path) = update.path {
            self.section = section_from_path(path.as_str());
            self.path = path;
        }
    }
}


/// Mathematical content of a [`BlogPostStore`]: posts by store id (`None` once removed), and
/// the indexes from object ids and from paths to store ids.
pub struct StoreV {
    pub posts: Seq<Option<BlogPostV>>,
    pub by_oid: Map<ObjectId, int>,
    pub by_path: Map<Seq<char>, int>,
}

/// Store id `id` holds a post.
pub open spec fn live(posts: Seq<Option<BlogPostV>>, id: int) -> bool {
    0 <= id < posts.len() && posts[id] is Some
}

/// Every index entry leads to a stored post, and that post has the indexed path or blob.
pub open spec fn store_wf(s: StoreV) -> bool {
    &&& forall|k: ObjectId| #[trigger] s.by_oid.contains_key(k) ==> live(s.posts, s.by_oid[k])
    &&& forall|k: Seq<char>| #[trigger] s.by_path.contains_key(k) ==> live(s.posts, s.by_path[k])
    &&& forall|k: ObjectId|
        #[trigger] s.by_oid.contains_key(k) ==> s.posts[s.by_oid[k]]->0.object_id == Some(k)
    &&& forall|k: Seq<char>|
        #[trigger] s.by_path.contains_key(k) ==> s.posts[s.by_path[k]]->0.path == k
}

pub open spec fn lookup(s: StoreV, id: int) -> Option<BlogPostV> {
    if 0 <= id < s.posts.len() {
        s.posts[id]
    } else {
        None
    }
}

/// The post indexed under a path.
pub open spec fn get_by_path_spec(s: StoreV, p: Seq<char>) -> Option<BlogPostV> {
    if s.by_path.contains_key(p) {
        lookup(s, s.by_path[p])
    } else {
        None
    }
}

/// The post indexed under an object id.
pub open spec fn get_by_oid_spec(s: StoreV, o: ObjectId) -> Option<BlogPostV> {
    if s.by_oid.contains_key(o) {
        lookup(s, s.by_oid[o])
    } else {
        None
    }
}

/// The store id a post belongs to: by its object id first, else by its path.
pub open spec fn post_id_for_spec(s: StoreV, oid: Option<ObjectId>, p: Seq<char>) -> Option<int> {
    if oid is Some && s.by_oid.contains_key(oid->0) {
        Some(s.by_oid[oid->0])
    } else if s.by_path.contains_key(p) {
        Some(s.by_path[p])
    } else {
        None
    }
}

/// Indexes after post `id` changed from `prev` to `cur`: a changed path drops the old path
/// entry, a changed object id drops the old one, and `cur`'s path and object id lead to `id`.
pub open spec fn reindex_spec(s: StoreV, id: int, prev: BlogPostV, cur: BlogPostV) -> StoreV {
    let bp1 = if prev.path != cur.path {
        s.by_path.remove(prev.path)
    } else {
        s.by_path
    };
    let bo1 = if prev.object_id is Some && prev.object_id != cur.object_id {
        s.by_oid.remove(prev.object_id->0)
    } else {
        s.by_oid
    };
    StoreV {
        posts: s.posts,
        by_path: bp1.insert(cur.path, id),
        by_oid: match cur.object_id {
            Some(o) => bo1.insert(o, id),
            None => bo1,
        },
    }
}

/// A post stored over an earlier one keeps that one's object id and publication date where it
/// has none of its own.
pub open spec fn merge_spec(prev: BlogPostV, post: BlogPostV) -> BlogPostV {
    BlogPostV {
        object_id: if post.object_id is None {
            prev.object_id
        } else {
            post.object_id
        },
        publication_date: if post.publication_date is None {
            prev.publication_date
        } else {
            post.publication_date
        },
        ..post
    }
}

/// Store and result after inserting or updating a post: its section is recomputed from its
/// path; when it belongs to a stored post (see [`post_id_for_spec`]) it is merged into that one,
/// else it is added under a fresh store id.
pub open spec fn upsert_spec(s: StoreV, post: BlogPostV) -> (StoreV, BlogPostV) {
    let post = BlogPostV { section: section_of(post.path), ..post };
    match post_id_for_spec(s, post.object_id, post.path) {
        Some(id) => {
            let prev = s.posts[id]->0;
            let merged = merge_spec(prev, post);
            let s1 = StoreV { posts: s.posts.update(id, Some(merged)), ..s };
            (reindex_spec(s1, id, prev, merged), merged)
        },
        None => {
            let id = s.posts.len() as int;
            (
                StoreV {
                    posts: s.posts.push(Some(post)),
                    by_path: s.by_path.insert(post.path, id),
                    by_oid: match post.object_id {
                        Some(o) => s.by_oid.insert(o, id),
                        None => s.by_oid,
                    },
                },
                post,
            )
        },
    }
}

/// Store and result after applying an update to the post with store id `id`.
pub open spec fn update_spec(s: StoreV, id: int, u: UpdV) -> (StoreV, Option<BlogPostV>) {
    match lookup(s, id) {
        None => (s, None),
        Some(prev) => {
            let cur = applied(prev, u);
            let s1 = StoreV { posts: s.posts.update(id, Some(cur)), ..s };
            (reindex_spec(s1, id, prev, cur), Some(cur))
        },
    }
}

/// Store after removing the post indexed under a path, with every index entry leading to it.
pub open spec fn remove_path_spec(s: StoreV, p: Seq<char>) -> StoreV {
    if s.by_path.contains_key(p) {
        let id = s.by_path[p];
        StoreV {
            posts: s.posts.update(id, None),
            by_path: crate::assoc::map_without_value(s.by_path, id),
            by_oid: crate::assoc::map_without_value(s.by_oid, id),
        }
    } else {
        s
    }
}

pub open spec fn opt_post(o: Option<BlogPost>) -> Option<BlogPostV> {
    match o {
        Some(p) => Some(p@),
        None => None,
    }
}

struct RawStore {
    posts: Vec<Option<BlogPost>>,
    by_object_id: Vec<(ObjectId, usize)>,
    by_path: Vec<(String, usize)>,
}

impl RawStore {
    closed spec fn view(&self) -> StoreV {
        StoreV {
            posts: Seq::new(self.posts@.len(), |i: int| opt_post(self.posts@[i])),
            by_oid: assoc_map(self.by_object_id@),
            by_path: assoc_map(path_entries(self.by_path@)),
        }
    }

    closed spec fn wf(&self) -> bool {
        &&& keys_unique(self.by_object_id@)
        &&& keys_unique(path_entries(self.by_path@))
        &&& store_wf(self.view())
    }

    fn empty() -> (r: RawStore)
        ensures
            r.wf(),
            r.view().posts.len() == 0,
            r.view().by_oid == Map::<ObjectId, int>::empty(),
            r.view().by_path == Map::<Seq<char>, int>::empty(),
    {
        let r = RawStore { posts: Vec::new(), by_object_id: Vec::new(), by_path: Vec::new() };
        proof {
            assert(r.view().by_oid =~= Map::<ObjectId, int>::empty());
            assert(r.view().by_path =~= Map::<Seq<char>, int>::empty());
        }
        r
    }

    fn get(&self, id: usize) -> (r: Option<BlogPost>)
        ensures
            opt_post(r) == lookup(self.view(), id as int),
    {
        if id < self.posts.len() {
            match &self.posts[id] {
                Some(p) => Some(p.duplicate()),
                None => None,
            }
        } else {
            None
        }
    }

    fn id_by_path(&self, path: &String) -> (r: Option<usize>)
        requires
            self.wf(),
        ensures
            match r {
                Some(id) => self.view().by_path.contains_key(path@) && self.view().by_path[path@]
                    == id,
                None => !self.view().by_path.contains_key(path@),
            },
    {
        path_lookup(&self.by_path, path)
    }

    fn id_by_oid(&self, oid: ObjectId) -> (r: Option<usize>)
        requires
            self.wf(),
        ensures
            match r {
                Some(id) => self.view().by_oid.contains_key(oid) && self.view().by_oid[oid] == id,
                None => !self.view().by_oid.contains_key(oid),
            },
    {
        oid_lookup(&self.by_object_id, oid)
    }

    fn post_id_for(&self, oid: Option<ObjectId>, path: &String) -> (r: Option<usize>)
        requires
            self.wf(),
        ensures
            opt_index(r) == post_id_for_spec(self.view(), oid, path@),
    {
        if let Some(o) = oid {
            if let Some(id) = self.id_by_oid(o) {
                return Some(id);
            }
        }
        self.id_by_path(path)
    }

    /// Stores `post` under the live id `id`, then re-indexes from `prev` to `post`.
    fn replace_and_reindex(&mut self, id: usize, prev: &BlogPost, post: BlogPost)
        requires
            old(self).wf(),
            live(old(self).view().posts, id as int),
            old(self).view().posts[id as int] == Some(prev@),
        ensures
            final(self).wf(),
            final(self).view() == reindex_spec(
                StoreV {
                    posts: old(self).view().posts.update(id as int, Some(post@)),
                    ..old(self).view()
                },
                id as int,
                prev@,
                post@,
            ),
    {
        let new_path = post.path.clone();
        let new_oid = post.object_id;
        self.posts.set(id, Some(post));
        let ghost s1 = self.view();
        proof {
            assert(s1.posts =~= old(self).view().posts.update(id as int, Some(post@)));
            assert(s1.by_oid == old(self).view().by_oid);
            assert(s1.by_path == old(self).view().by_path);
        }
        if prev.path != new_path {
            path_remove_key(&mut self.by_path, &prev.path);
        }
        path_insert(&mut self.by_path, new_path, id);
        if let Some(po) = prev.object_id {
            if !(new_oid == Some(po)) {
                oid_remove_key(&mut self.by_object_id, po);
            }
        }
        if let Some(co) = new_oid {
            oid_insert(&mut self.by_object_id, co, id);
        }
        proof {
            let target = reindex_spec(s1, id as int, prev@, post@);
            lemma_reindex_wf(old(self).view(), id as int, prev@, post@);
            assert(self.view().posts =~= target.posts);
            assert(self.view().by_path =~= target.by_path);
            assert(self.view().by_oid =~= target.by_oid);
        }
    }

    fn upsert_post(&mut self, post: BlogPost) -> (r: BlogPost)
        requires
            old(self).wf(),
        ensures
            final(self).wf(),
            (final(self).view(), r@) == upsert_spec(old(self).view(), post@),
    {
        let mut post = post;
        post.section = section_from_path(post.path.as_str());
        match self.post_id_for(post.object_id, &post.path) {
            Some(store_id) => {
                let previous = match self.get(store_id) {
                    Some(p) => p,
                    None => {
                        proof {
                            assert(false);
                        }
                        return post;
                    },
                };
                let mut merged = post;
                if merged.object_id.is_none() {
                    merged.object_id = previous.object_id;
                }
                if merged.publication_date.is_none() {
                    merged.publication_date = previous.publication_date;
                }
                let result = merged.duplicate();
                self.replace_and_reindex(store_id, &previous, merged);
                result
            },
            None => {
                let store_id = self.posts.len();
                let result = post.duplicate();
                let key = post.path.clone();
                let oid = post.object_id;
                let ghost s0 = self.view();
                self.posts.push(Some(post));
                path_insert(&mut self.by_path, key, store_id);
                if let Some(o) = oid {
                    oid_insert(&mut self.by_object_id, o, store_id);
                }
                proof {
                    let target = upsert_spec(s0, post@).0;
                    assert(self.view().posts =~= target.posts);
                    assert(self.view().by_path =~= target.by_path);
                    assert(self.view().by_oid =~= target.by_oid);
                }
                result
            },
        }
    }

    fn update_by_id(&mut self, store_id: usize, update: BlogPostUpdate) -> (r: Option<BlogPost>)
        requires
            old(self).wf(),
        ensures
            final(self).wf(),
            (final(self).view(), opt_post(r)) == update_spec(old(self).view(), store_id as int, update@),
    {
        let previous = match self.get(store_id) {
            Some(p) => p,
            None => return None,
        };
        let mut current = previous.duplicate();
        current.apply_update(update);
        let result = current.duplicate();
        self.replace_and_reindex(store_id, &previous, current);
        Some(result)
    }

    fn remove_by_path(&mut self, path: &String) -> (r: Option<BlogPost>)
        requires
            old(self).wf(),
        ensures
            final(self).wf(),
            final(self).view() == remove_path_spec(old(self).view(), path@),
            opt_post(r) == get_by_path_spec(old(self).view(), path@),
    {
        let store_id = match self.id_by_path(path) {
            Some(id) => id,
            None => return None,
        };
        let removed = self.get(store_id);
        let ghost s0 = self.view();
        self.posts.set(store_id, None);
        path_retain_not_value(&mut self.by_path, store_id);
        oid_retain_not_value(&mut self.by_object_id, store_id);
        proof {
            let target = remove_path_spec(s0, path@);
            assert(self.view().posts =~= target.posts);
        }
        removed
    }
}

/// The blog posts known so far, indexed by path and by the git blob that holds their source.
pub struct BlogPostStore {
    raw: RawStore,
}

impl View for BlogPostStore {
    type V = StoreV;

    closed spec fn view(&self) -> StoreV {
        self.raw.view()
    }
}

impl BlogPostStore {
    #[verifier::type_invariant]
    spec fn inv(self) -> bool {
        self.raw.wf()
    }

    /// An empty store.
    pub fn new() -> (r: BlogPostStore)
        ensures
            r@.posts.len() == 0,
            r@.by_oid == Map::<ObjectId, int>::empty(),
            r@.by_path == Map::<Seq<char>, int>::empty(),
    {
        BlogPostStore { raw: RawStore::empty() }
    }

    /// Every store is well formed: each index entry leads to a stored post. Callers use this
    /// to apply the store laws to a store they hold.
    pub fn check_wf(&self)
        ensures
            store_wf(self@),
    {
        proof {
            use_type_invariant(self);
        }
    }

    fn take_raw(&mut self) -> (r: RawStore)
        ensures
            r.wf(),
            r.view() == old(self)@,
    {
        proof {
            use_type_invariant(&*self);
        }
        let mut raw = RawStore::empty();
        std::mem::swap(&mut raw, &mut self.raw);
        raw
    }
}

/// Inserts a post, or merges it into the stored post with its object id or else its path,
/// keeping that post's object id and publication date where the new one has none. Returns
/// the post as stored.
pub fn upsert(store: &mut BlogPostStore, post: BlogPost) -> (r: BlogPost)
    ensures
        (final(store)@, r@) == upsert_spec(old(store)@, post@),
{
    let mut raw = store.take_raw();
    let r = raw.upsert_post(post);
    store.raw = raw;
    r
}

/// The post stored under a path.
pub fn get_by_path(store: &BlogPostStore, path: &String) -> (r: Option<BlogPost>)
    ensures
        opt_post(r) == get_by_path_spec(store@, path@),
{
    proof {
        use_type_invariant(store);
    }
    match store.raw.id_by_path(path) {
        Some(id) => store.raw.get(id),
        None => None,
    }
}

/// The post stored under an object id.
pub fn get_by_object_id(store: &BlogPostStore, object_id: &ObjectId) -> (r: Option<BlogPost>)
    ensures
        opt_post(r) == get_by_oid_spec(store@, *object_id),
{
    proof {
        use_type_invariant(store);
    }
    match store.raw.id_by_oid(*object_id) {
        Some(id) => store.raw.get(id),
        None => None,
    }
}

/// Applies an update to the post stored under a path.
pub fn update_by_path(store: &mut BlogPostStore, path: &String, update: BlogPostUpdate) -> (r:
    Option<BlogPost>)
    ensures
        if old(store)@.by_path.contains_key(path@) {
            (final(store)@, opt_post(r)) == update_spec(
                old(store)@,
                old(store)@.by_path[path@],
                update@,
            )
        } else {
            final(store)@ == old(store)@ && r is None
        },
{
    let mut raw = store.take_raw();
    let r = match raw.id_by_path(path) {
        Some(id) => raw.update_by_id(id, update),
        None => None,
    };
    store.raw = raw;
    r
}

/// Applies an update to the post stored under an object id.
pub fn update_by_object_id(
    store: &mut BlogPostStore,
    object_id: &ObjectId,
    update: BlogPostUpdate,
) -> (r: Option<BlogPost>)
    ensures
        if old(store)@.by_oid.contains_key(*object_id) {
            (final(store)@, opt_post(r)) == update_spec(
                old(store)@,
                old(store)@.by_oid[*object_id],
                update@,
            )
        } else {
            final(store)@ == old(store)@ && r is None
        },
{
    let mut raw = store.take_raw();
    let r = match raw.id_by_oid(*object_id) {
        Some(id) => raw.update_by_id(id, update),
        None => None,
    };
    store.raw = raw;
    r
}

/// Removes the post stored under a path, with every index entry that leads to it; returns it.
pub fn remove_by_path(store: &mut BlogPostStore, path: &String) -> (r: Option<BlogPost>)
    ensures
        final(store)@ == remove_path_spec(old(store)@, path@),
        opt_post(r) == get_by_path_spec(old(store)@, path@),
{
    let mut raw = store.take_raw();
    let r = raw.remove_by_path(path);
    store.raw = raw;
    r
}

/// The stored posts that are still there, in store-id order.
pub open spec fn all_spec(posts: Seq<Option<BlogPostV>>) -> Seq<BlogPostV>
    decreases posts.len(),
{
    if posts.len() == 0 {
        seq![]
    } else {
        let prev = all_spec(posts.drop_last());
        match posts.last() {
            Some(p) => prev.push(p),
            None => prev,
        }
    }
}

pub open spec fn post_views(v: Seq<BlogPost>) -> Seq<BlogPostV> {
    Seq::new(v.len(), |i: int| v[i]@)
}

/// Every stored post, in the order they were first stored.
pub fn all(store: &BlogPostStore) -> (r: Vec<BlogPost>)
    ensures
        post_views(r@) == all_spec(store@.posts),
{
    let mut out: Vec<BlogPost> = Vec::new();
    let mut i: usize = 0;
    let ghost ps = store@.posts;
    while i < store.raw.posts.len()
        invariant
            i <= store.raw.posts.len(),
            ps == store@.posts,
            ps.len() == store.raw.posts.len(),
            post_views(out@) == all_spec(ps.take(i as int)),
        decreases store.raw.posts.len() - i,
    {
        proof {
            assert(ps.take(i + 1).drop_last() =~= ps.take(i as int));
            assert(ps[i as int] == opt_post(store.raw.posts@[i as int]));
        }
        if let Some(p) = &store.raw.posts[i] {
            let c = p.duplicate();
            proof {
                assert(post_views(out@.push(c)) =~= post_views(out@).push(c@));
            }
            out.push(c);
        }
        i += 1;
    }
    proof {
        assert(ps.take(ps.len() as int) =~= ps);
    }
    out
}


/// A post with default title and summary for a path.
pub open spec fn defaults_v(path: Seq<char>, lu: TimeV) -> BlogPostV {
    BlogPostV {
        object_id: None,
        last_updated: lu,
        publication_date: None,
        title: fallback_title_of(path),
        summary: seq![],
        path,
        section: section_of(path),
    }
}

/// The later of two points in time (the first one when they are the same instant).
pub open spec fn later(a: TimeV, b: TimeV) -> TimeV {
    if b.instant() > a.instant() {
        b
    } else {
        a
    }
}

/// A post moved to `path` and tied to blob `oid`, its last update moved forward to `lu`.
pub open spec fn relocated(base: BlogPostV, oid: ObjectId, path: Seq<char>, lu: TimeV) -> BlogPostV {
    BlogPostV {
        object_id: Some(oid),
        path,
        section: section_of(path),
        last_updated: later(base.last_updated, lu),
        ..base
    }
}

pub open spec fn either(a: Option<BlogPostV>, b: Option<BlogPostV>) -> Option<BlogPostV> {
    match a {
        Some(p) => Some(p),
        None => b,
    }
}

/// Store and result after tying a blob to a path: the post found by the blob, else by the path,
/// else a new one, is relocated there and stored.
pub open spec fn register_spec(s: StoreV, oid: ObjectId, path: Seq<char>, lu: TimeV) -> (
    StoreV,
    BlogPostV,
) {
    let base = match either(get_by_oid_spec(s, oid), get_by_path_spec(s, path)) {
        Some(p) => p,
        None => defaults_v(path, lu),
    };
    upsert_spec(s, relocated(base, oid, path, lu))
}

/// Store after moving a post from `from` to `to`: the post found at `from`, else by the blob,
/// else a new one, is relocated to `to` and stored.
pub open spec fn transfer_spec(
    s: StoreV,
    from: Seq<char>,
    to: Seq<char>,
    oid: ObjectId,
    lu: TimeV,
) -> StoreV {
    let base = match either(get_by_path_spec(s, from), get_by_oid_spec(s, oid)) {
        Some(p) => p,
        None => defaults_v(to, lu),
    };
    upsert_spec(s, relocated(base, oid, to, lu)).0
}

/// An update that sets the publication date only.
pub open spec fn publication_update(d: TimeV) -> UpdV {
    UpdV { publication_date: Some(d), ..no_update() }
}

/// Store after setting the publication date of the post at a path.
pub open spec fn set_pub_spec(s: StoreV, path: Seq<char>, d: TimeV) -> StoreV {
    if s.by_path.contains_key(path) {
        update_spec(s, s.by_path[path], publication_update(d)).0
    } else {
        s
    }
}

/// Store after setting the publication date of the post at a path when it has none yet.
pub open spec fn try_set_pub_spec(s: StoreV, path: Seq<char>, d: TimeV) -> StoreV {
    match get_by_path_spec(s, path) {
        Some(p) => if p.publication_date is None {
            set_pub_spec(s, path, d)
        } else {
            s
        },
        None => s,
    }
}

fn relocate(post: &mut BlogPost, oid: ObjectId, path: &String, last_updated: Timestamp)
    ensures
        final(post)@ == relocated(old(post)@, oid, path@, last_updated@),
{
    post.object_id = Some(oid);
    post.path = path.clone();
    post.section = section_from_path(path.as_str());
    if last_updated.is_after(&post.last_updated) {
        post.last_updated = last_updated;
    }
}

/// Stores a post with default title and summary for the path and the given blob.
pub fn upsert_with_defaults(
    store: &mut BlogPostStore,
    path: String,
    object_id: Option<ObjectId>,
    last_updated: Timestamp,
) -> (r: BlogPost)
    ensures
        (final(store)@, r@) == upsert_spec(
            old(store)@,
            BlogPostV { object_id, ..defaults_v(path@, last_updated@) },
        ),
{
    let mut post = BlogPost::with_defaults(path, last_updated);
    post.object_id = object_id;
    upsert(store, post)
}

/// Ties a blob to a path: the post known by the blob, else by the path, else a new one, moves
/// there, takes the blob and a later last-update time, and is stored.
pub fn register_object_path(
    store: &mut BlogPostStore,
    object_id: ObjectId,
    path: String,
    last_updated: Timestamp,
) -> (r: BlogPost)
    ensures
        (final(store)@, r@) == register_spec(old(store)@, object_id, path@, last_updated@),
{
    let existing = match get_by_object_id(store, &object_id) {
        Some(p) => Some(p),
        None => get_by_path(store, &path),
    };
    let mut post = match existing {
        Some(p) => p,
        None => BlogPost::with_defaults(path.clone(), last_updated),
    };
    relocate(&mut post, object_id, &path, last_updated);
    upsert(store, post)
}

/// Sets the publication date of the post at a path, when it has none yet.
pub fn try_set_publication_date(store: &mut BlogPostStore, path: &String, date: Timestamp)
    ensures
        final(store)@ == try_set_pub_spec(old(store)@, path@, date@),
{
    let post = match get_by_path(store, path) {
        Some(p) => p,
        None => return,
    };
    if post.publication_date.is_none() {
        set_publication_date(store, path, date);
    }
}

/// Sets the publication date of the post at a path.
pub fn set_publication_date(store: &mut BlogPostStore, path: &String, date: Timestamp)
    ensures
        final(store)@ == set_pub_spec(old(store)@, path@, date@),
{
    let mut update = BlogPostUpdate::none();
    update.publication_date = Some(date);
    proof {
        assert(update@ == publication_update(date@));
    }
    let _ = update_by_path(store, path, update);
}

/// Moves a post from `from` to `to`: the post at `from`, else the one known by the blob, else a
/// new one, moves to `to`, takes the blob and a later last-update time, and is stored.
pub fn transfer_post_to_path(
    store: &mut BlogPostStore,
    from: &String,
    to: String,
    object_id: ObjectId,
    last_updated: Timestamp,
)
    ensures
        final(store)@ == transfer_spec(old(store)@, from@, to@, object_id, last_updated@),
{
    let existing = match get_by_path(store, from) {
        Some(p) => Some(p),
        None => get_by_object_id(store, &object_id),
    };
    let mut post = match existing {
        Some(p) => p,
        None => BlogPost::with_defaults(to.clone(), last_updated),
    };
    relocate(&mut post, object_id, &to, last_updated);
    upsert(store, post);
}


/// Re-indexing a stored post after it changed keeps the store well formed: every entry still
/// leads to a post with its path or blob, and no other entry is added.
pub proof fn lemma_reindex_wf(s: StoreV, id: int, prev: BlogPostV, cur: BlogPostV)
    requires
        store_wf(s),
        live(s.posts, id),
        s.posts[id] == Some(prev),
    ensures
        ({
            let s1 = StoreV { posts: s.posts.update(id, Some(cur)), ..s };
            let s2 = reindex_spec(s1, id, prev, cur);
            &&& s2.posts == s1.posts
            &&& forall|k: Seq<char>|
                #[trigger] s2.by_path.contains_key(k) ==> live(s2.posts, s2.by_path[k])
                    && s2.posts[s2.by_path[k]]->0.path == k
            &&& forall|o: ObjectId|
                #[trigger] s2.by_oid.contains_key(o) ==> live(s2.posts, s2.by_oid[o])
                    && s2.posts[s2.by_oid[o]]->0.object_id == Some(o)
            &&& forall|k: Seq<char>|
                k != cur.path && k != prev.path ==> (#[trigger] s2.by_path.contains_key(k)
                    == s.by_path.contains_key(k)) && (s.by_path.contains_key(k)
                    ==> s2.by_path[k] == s.by_path[k])
            &&& forall|o: ObjectId|
                Some(o) != cur.object_id && #[trigger] s2.by_oid.contains_key(o)
                    ==> s.by_oid.contains_key(o) && s2.by_oid[o] == s.by_oid[o]
        }),
{
    let s1 = StoreV { posts: s.posts.update(id, Some(cur)), ..s };
    let s2 = reindex_spec(s1, id, prev, cur);
    assert forall|k: Seq<char>| #[trigger] s2.by_path.contains_key(k) implies live(
        s2.posts,
        s2.by_path[k],
    ) && s2.posts[s2.by_path[k]]->0.path == k by {
        if k != cur.path {
            assert(s.by_path.contains_key(k));
            assert(live(s.posts, s.by_path[k]));
            if s.by_path[k] == id {
                assert(prev.path == k);
            }
        }
    }
    assert forall|o: ObjectId| #[trigger] s2.by_oid.contains_key(o) implies live(
        s2.posts,
        s2.by_oid[o],
    ) && s2.posts[s2.by_oid[o]]->0.object_id == Some(o) by {
        if Some(o) != cur.object_id {
            assert(s.by_oid.contains_key(o));
            assert(live(s.posts, s.by_oid[o]));
            if s.by_oid[o] == id {
                assert(prev.object_id == Some(o));
            }
        }
    }
}

/// After an update of a stored post, the updated post is found under its path and, when it has
/// one, under its object id, the other indexes still lead to stored posts, and no store id is
/// added.
pub proof fn lemma_update_found(s: StoreV, id: int, u: UpdV)
    requires
        store_wf(s),
        live(s.posts, id),
    ensures
        ({
            let (s2, r) = update_spec(s, id, u);
            let cur = applied(s.posts[id]->0, u);
            &&& r == Some(cur)
            &&& store_wf(s2)
            &&& s2.posts.len() == s.posts.len()
            &&& s2.by_path.contains_key(cur.path) && s2.by_path[cur.path] == id
            &&& lookup(s2, id) == Some(cur)
            &&& get_by_path_spec(s2, cur.path) == Some(cur)
            &&& (cur.object_id matches Some(o) ==> get_by_oid_spec(s2, o) == Some(cur))
        }),
{
    let (s2, r) = update_spec(s, id, u);
    let prev = s.posts[id]->0;
    let cur = applied(prev, u);
    assert(lookup(s, id) == Some(prev));
    let posts2 = s.posts.update(id, Some(cur));
    assert(s2.posts == posts2);
    assert forall|k: Seq<char>| #[trigger] s2.by_path.contains_key(k) implies live(
        s2.posts,
        s2.by_path[k],
    ) by {
        if k != cur.path {
            assert(s.by_path.contains_key(k));
            assert(live(s.posts, s.by_path[k]));
        }
    }
    assert forall|k: ObjectId| #[trigger] s2.by_oid.contains_key(k) implies live(
        s2.posts,
        s2.by_oid[k],
    ) by {
        if Some(k) != cur.object_id {
            assert(s.by_oid.contains_key(k));
            assert(live(s.posts, s.by_oid[k]));
        }
    }
}

/// After an upsert, the stored post is found under the path it was given and, when it has one,
/// under its object id, and every index still leads to a stored post.
pub proof fn lemma_upsert_found(s: StoreV, v: BlogPostV)
    requires
        store_wf(s),
    ensures
        ({
            let (s2, m) = upsert_spec(s, v);
            &&& store_wf(s2)
            &&& m.path == v.path
            &&& s2.by_path.contains_key(m.path)
            &&& get_by_path_spec(s2, v.path) == Some(m)
            &&& (m.object_id matches Some(o) ==> get_by_oid_spec(s2, o) == Some(m))
        }),
{
    let (s2, m) = upsert_spec(s, v);
    let post = BlogPostV { section: section_of(v.path), ..v };
    match post_id_for_spec(s, post.object_id, post.path) {
        Some(id) => {
            assert(live(s.posts, id));
            let prev = s.posts[id]->0;
            let merged = merge_spec(prev, post);
            assert(m == merged);
            assert forall|k: Seq<char>| #[trigger] s2.by_path.contains_key(k) implies live(
                s2.posts,
                s2.by_path[k],
            ) by {
                if k != merged.path {
                    assert(s.by_path.contains_key(k));
                    assert(live(s.posts, s.by_path[k]));
                }
            }
            assert forall|k: ObjectId| #[trigger] s2.by_oid.contains_key(k) implies live(
                s2.posts,
                s2.by_oid[k],
            ) by {
                if Some(k) != merged.object_id {
                    assert(s.by_oid.contains_key(k));
                    assert(live(s.posts, s.by_oid[k]));
                }
            }
        },
        None => {
            let id = s.posts.len() as int;
            assert forall|k: Seq<char>| #[trigger] s2.by_path.contains_key(k) implies live(
                s2.posts,
                s2.by_path[k],
            ) by {
                if k != post.path {
                    assert(s.by_path.contains_key(k));
                    assert(live(s.posts, s.by_path[k]));
                }
            }
            assert forall|k: ObjectId| #[trigger] s2.by_oid.contains_key(k) implies live(
                s2.posts,
                s2.by_oid[k],
            ) by {
                if Some(k) != post.object_id {
                    assert(s.by_oid.contains_key(k));
                    assert(live(s.posts, s.by_oid[k]));
                }
            }
        },
    }
}

/// Removing the post at a path leaves nothing there, and every index still leads to a stored
/// post.
pub proof fn lemma_remove_path_gone(s: StoreV, p: Seq<char>)
    requires
        store_wf(s),
    ensures
        store_wf(remove_path_spec(s, p)),
        get_by_path_spec(remove_path_spec(s, p), p) is None,
{
    let s2 = remove_path_spec(s, p);
    if s.by_path.contains_key(p) {
        let id = s.by_path[p];
        assert(!s2.by_path.contains_key(p));
        assert forall|k: Seq<char>| #[trigger] s2.by_path.contains_key(k) implies live(
            s2.posts,
            s2.by_path[k],
        ) by {
            assert(s.by_path.contains_key(k) && s.by_path[k] != id);
            assert(live(s.posts, s.by_path[k]));
        }
        assert forall|k: ObjectId| #[trigger] s2.by_oid.contains_key(k) implies live(
            s2.posts,
            s2.by_oid[k],
        ) by {
            assert(s.by_oid.contains_key(k) && s.by_oid[k] != id);
            assert(live(s.posts, s.by_oid[k]));
        }
    }
}

/// A post written to the store is what a read by its path gives back, with the object id and
/// publication date of the post it replaced where it has none of its own.
pub proof fn law_read_after_upsert(s: StoreV, v: BlogPostV)
    requires
        store_wf(s),
    ensures
        ({
            let (s2, m) = upsert_spec(s, v);
            let prev = match post_id_for_spec(s, v.object_id, v.path) {
                Some(id) => s.posts[id],
                None => None,
            };
            &&& get_by_path_spec(s2, v.path) == Some(m)
            &&& m.title == v.title && m.summary == v.summary && m.last_updated == v.last_updated
            &&& m.section == section_of(v.path)
            &&& m.publication_date == match (v.publication_date, prev) {
                (Some(d), _) => Some(d),
                (None, Some(q)) => q.publication_date,
                (None, None) => None,
            }
            &&& m.object_id == match (v.object_id, prev) {
                (Some(o), _) => Some(o),
                (None, Some(q)) => q.object_id,
                (None, None) => None,
            }
        }),
{
    lemma_upsert_found(s, v);
}

/// Setting a publication date on a stored path is what a read by that path gives back.
pub proof fn law_read_after_set_publication(s: StoreV, p: Seq<char>, d: TimeV)
    requires
        store_wf(s),
        get_by_path_spec(s, p) is Some,
    ensures
        store_wf(set_pub_spec(s, p, d)),
        get_by_path_spec(set_pub_spec(s, p, d), p) is Some,
        get_by_path_spec(set_pub_spec(s, p, d), p)->0.publication_date == Some(d),
{
    lemma_update_found(s, s.by_path[p], publication_update(d));
}


/// An upsert that moves a stored post to another path leaves nothing at the old path.
pub proof fn law_upsert_move_drops_old_path(s: StoreV, v: BlogPostV)
    requires
        store_wf(s),
        post_id_for_spec(s, v.object_id, v.path) is Some,
        s.posts[post_id_for_spec(s, v.object_id, v.path)->0]->0.path != v.path,
    ensures
        ({
            let old_path = s.posts[post_id_for_spec(s, v.object_id, v.path)->0]->0.path;
            let (s2, m) = upsert_spec(s, v);
            &&& get_by_path_spec(s2, old_path) is None
            &&& get_by_path_spec(s2, v.path) == Some(m)
        }),
{
    lemma_upsert_found(s, v);
}

/// Setting the publication date of the post at a path changes that post's publication date
/// and nothing else: its other fields stay, every other stored post stays, and so does what a
/// read gives at any path that leads to another post.
pub proof fn law_set_publication_changes_nothing_else(s: StoreV, p: Seq<char>, d: TimeV)
    requires
        store_wf(s),
        s.by_path.contains_key(p),
    ensures
        ({
            let id = s.by_path[p];
            let q = s.posts[id]->0;
            let s2 = set_pub_spec(s, p, d);
            &&& lookup(s2, id) == Some(BlogPostV { publication_date: Some(d), ..q })
            &&& forall|j: int| j != id ==> #[trigger] lookup(s2, j) == lookup(s, j)
            &&& forall|x: Seq<char>|
                x != q.path && !(s.by_path.contains_key(x) && s.by_path[x] == id)
                    ==> #[trigger] get_by_path_spec(s2, x) == get_by_path_spec(s, x)
        }),
{
    let id = s.by_path[p];
    assert(live(s.posts, id));
    lemma_update_found(s, id, publication_update(d));
    let q = s.posts[id]->0;
    assert(applied(q, publication_update(d)) == BlogPostV { publication_date: Some(d), ..q });
}

/// The date a listing orders a post by: its publication date (its last update when unknown), or
/// its last update.
pub open spec fn listing_date(p: BlogPostV, by_publication: bool) -> TimeV {
    if by_publication {
        match p.publication_date {
            Some(d) => d,
            None => p.last_updated,
        }
    } else {
        p.last_updated
    }
}

/// Where a stable newest-first insertion puts `x`: before the first post with an older date.
pub open spec fn newer_pos(v: Seq<BlogPostV>, x: BlogPostV, by_publication: bool) -> int
    decreases v.len(),
{
    if v.len() == 0 {
        0
    } else if listing_date(x, by_publication).instant() > listing_date(v[0], by_publication).instant() {
        0
    } else {
        1 + newer_pos(v.drop_first(), x, by_publication)
    }
}

/// The posts newest first by their listing date, posts with the same instant in their given
/// order.
pub open spec fn newest_first(s: Seq<BlogPostV>, by_publication: bool) -> Seq<BlogPostV>
    decreases s.len(),
{
    if s.len() == 0 {
        seq![]
    } else {
        let v = newest_first(s.drop_last(), by_publication);
        v.insert(newer_pos(v, s.last(), by_publication), s.last())
    }
}

fn listing_date_of(p: &BlogPost, by_publication: bool) -> (r: Timestamp)
    ensures
        r@ == listing_date(p@, by_publication),
{
    if by_publication {
        p.effective_publication_date()
    } else {
        p.last_updated
    }
}

/// The posts newest first by publication date (`by_publication`) or by last update; posts
/// dated at the same instant keep their order.
pub fn sort_newest_first(posts: &Vec<BlogPost>, by_publication: bool) -> (r: Vec<BlogPost>)
    ensures
        post_views(r@) == newest_first(post_views(posts@), by_publication),
{
    let mut out: Vec<BlogPost> = Vec::new();
    let mut i: usize = 0;
    let ghost pv = post_views(posts@);
    proof {
        assert(post_views(out@) =~= newest_first(pv.take(0), by_publication));
    }
    while i < posts.len()
        invariant
            i <= posts.len(),
            pv == post_views(posts@),
            post_views(out@) == newest_first(pv.take(i as int), by_publication),
        decreases posts.len() - i,
    {
        let x = &posts[i];
        let xd = listing_date_of(x, by_publication);
        let ghost ov = post_views(out@);
        let mut k: usize = 0;
        proof {
            assert(ov.skip(0) =~= ov);
        }
        while k < out.len() && !xd.is_after(&listing_date_of(&out[k], by_publication))
            invariant
                k <= out.len(),
                ov == post_views(out@),
                xd@ == listing_date(x@, by_publication),
                newer_pos(ov.skip(k as int), x@, by_publication) + k == newer_pos(
                    ov,
                    x@,
                    by_publication,
                ),
            decreases out.len() - k,
        {
            proof {
                assert(ov.skip(k as int).drop_first() =~= ov.skip(k + 1));
                assert(ov.skip(k as int)[0] == ov[k as int]);
            }
            k += 1;
        }
        proof {
            if k < out.len() {
                assert(ov.skip(k as int)[0] == ov[k as int]);
            }
        }
        let c = x.duplicate();
        out.insert(k, c);
        proof {
            let t = pv.take(i + 1);
            assert(t.drop_last() =~= pv.take(i as int));
            assert(t.last() == x@);
            assert(post_views(out@) =~= ov.insert(k as int, x@));
        }
        i += 1;
    }
    proof {
        assert(pv.take(posts.len() as int) =~= pv);
    }
    out
}

/// The sections of the posts, each once, in sorted order.
pub fn collect_sections(posts: &Vec<BlogPost>) -> (r: Vec<String>)
    ensures
        crate::order::strictly_sorted(crate::views_of(r@)),
        forall|s: Seq<char>|
            crate::views_of(r@).contains(s) <==> exists|i: int|
                0 <= i < posts@.len() && #[trigger] posts@[i]@.section == Some(s),
{
    let mut all: Vec<String> = Vec::new();
    let mut i: usize = 0;
    while i < posts.len()
        invariant
            i <= posts.len(),
            forall|s: Seq<char>|
                crate::views_of(all@).contains(s) <==> exists|j: int|
                    0 <= j < i && #[trigger] posts@[j]@.section == Some(s),
        decreases posts.len() - i,
    {
        let ghost before = crate::views_of(all@);
        match &posts[i].section {
            Some(sec) => {
                all.push(copy_string(sec));
                proof {
                    assert(crate::views_of(all@) =~= before.push(sec@));
                }
            },
            None => {},
        }
        proof {
            assert forall|s: Seq<char>|
                crate::views_of(all@).contains(s) <==> exists|j: int|
                    0 <= j < i + 1 && #[trigger] posts@[j]@.section == Some(s) by {
                if posts@[i as int]@.section is Some {
                    crate::text::lemma_push_contains(before, posts@[i as int]@.section->0, s);
                }
                if exists|j: int| 0 <= j < i + 1 && #[trigger] posts@[j]@.section == Some(s) {
                    let j = choose|j: int| 0 <= j < i + 1 && #[trigger] posts@[j]@.section == Some(s);
                    if j < i {
                        assert(exists|j: int| 0 <= j < i && #[trigger] posts@[j]@.section == Some(s));
                    }
                }
            }
        }
        i += 1;
    }
    crate::order::sorted_unique(&all)
}

/// The posts whose section is `section`, in order.
pub fn posts_in_section(posts: &Vec<BlogPost>, section: &str) -> (r: Vec<BlogPost>)
    ensures
        post_views(r@) == post_views(posts@).filter(|p: BlogPostV| p.section == Some(section@)),
{
    let mut out: Vec<BlogPost> = Vec::new();
    let mut i: usize = 0;
    let ghost pv = post_views(posts@);
    proof {
        assert(pv.take(0).filter(|p: BlogPostV| p.section == Some(section@)) =~= Seq::<BlogPostV>::empty()) by {
            reveal(Seq::filter);
        }
        assert(post_views(out@) =~= Seq::<BlogPostV>::empty());
    }
    while i < posts.len()
        invariant
            i <= posts.len(),
            pv == post_views(posts@),
            post_views(out@) == pv.take(i as int).filter(|p: BlogPostV| p.section == Some(section@)),
        decreases posts.len() - i,
    {
        proof {
            assert(pv.take(i + 1).drop_last() =~= pv.take(i as int));
            assert(pv.take(i + 1).last() == posts@[i as int]@);
            reveal(Seq::filter);
        }
        let keep = match &posts[i].section {
            Some(s) => crate::order::str_eq_text(s.as_str(), section),
            None => false,
        };
        if keep {
            let c = posts[i].duplicate();
            let ghost before = post_views(out@);
            out.push(c);
            proof {
                assert(post_views(out@) =~= before.push(posts@[i as int]@));
            }
        }
        i += 1;
    }
    proof {
        assert(pv.take(posts.len() as int) =~= pv);
    }
    out
}

proof fn lemma_newer_pos(v: Seq<BlogPostV>, x: BlogPostV, by_publication: bool)
    ensures
        0 <= newer_pos(v, x, by_publication) <= v.len(),
        forall|i: int|
            0 <= i < newer_pos(v, x, by_publication) ==> listing_date(x, by_publication).instant()
                <= listing_date(#[trigger] v[i], by_publication).instant(),
        newer_pos(v, x, by_publication) < v.len() ==> listing_date(x, by_publication).instant()
            > listing_date(v[newer_pos(v, x, by_publication)], by_publication).instant(),
    decreases v.len(),
{
    if v.len() > 0 && !(listing_date(x, by_publication).instant() > listing_date(
        v[0],
        by_publication,
    ).instant()) {
        lemma_newer_pos(v.drop_first(), x, by_publication);
        assert forall|i: int| 0 <= i < newer_pos(v, x, by_publication) implies listing_date(
            x,
            by_publication,
        ).instant() <= listing_date(#[trigger] v[i], by_publication).instant() by {
            if i > 0 {
                assert(v[i] == v.drop_first()[i - 1]);
            }
        }
    }
}

/// A listing holds every post once and shows them newest first: the posts it lists are those
/// given, as many times each, and each is dated no earlier than the ones after it, by
/// publication date (`by_publication`) or by last update.
pub proof fn law_listing_newest_first(s: Seq<BlogPostV>, by_publication: bool)
    ensures
        newest_first(s, by_publication).len() == s.len(),
        newest_first(s, by_publication).to_multiset() == s.to_multiset(),
        forall|i: int, j: int|
            0 <= i < j < s.len() ==> listing_date(
                #[trigger] newest_first(s, by_publication)[i],
                by_publication,
            ).instant() >= listing_date(
                #[trigger] newest_first(s, by_publication)[j],
                by_publication,
            ).instant(),
    decreases s.len(),
{
    broadcast use vstd::seq_lib::group_to_multiset_ensures;

    if s.len() == 0 {
        assert(newest_first(s, by_publication) =~= s);
    } else {
        let v = newest_first(s.drop_last(), by_publication);
        law_listing_newest_first(s.drop_last(), by_publication);
        let x = s.last();
        lemma_newer_pos(v, x, by_publication);
        let k = newer_pos(v, x, by_publication);
        let w = v.insert(k, x);
        assert(newest_first(s, by_publication) == w);
        crate::order::lemma_insert_to_multiset(v, k, x);
        assert(s.drop_last().push(x) =~= s);
        assert(v.len() == s.drop_last().len()) by {
            assert(v.to_multiset().len() == s.drop_last().to_multiset().len());
        }
        assert forall|i: int, j: int| 0 <= i < j < w.len() implies listing_date(
            #[trigger] w[i],
            by_publication,
        ).instant() >= listing_date(#[trigger] w[j], by_publication).instant() by {
            if j < k {
                assert(w[i] == v[i] && w[j] == v[j]);
            } else if j == k {
                assert(w[i] == v[i]);
            } else if i < k {
                assert(w[i] == v[i] && w[j] == v[j - 1]);
            } else if i == k {
                assert(w[j] == v[j - 1]);
                if j - 1 > k {
                    assert(listing_date(v[k], by_publication).instant() >= listing_date(
                        v[j - 1],
                        by_publication,
                    ).instant());
                }
            } else {
                assert(w[i] == v[i - 1] && w[j] == v[j - 1]);
            }
        }
    }
}

} // verus!

