//! Front matter, title and summary extraction from Markdown sources, rendering to HTML through
//! `comrak`, and what is made of that HTML: plain text and inline ledes.
use vstd::prelude::*;
use crate::text::{
    chars_of, eq_chars, index_of_char, index_of_char_exec, is_ws, join, join_exec, lines, lines_of,
    copy_chars, push_all, slice_to_vec, starts_with, starts_with_exec, ends_with, ends_with_exec,
    is_whitespace, string_of, trim, trim_bounds,
    trim_matches, trim_matches_exec, trim_start, trimmed, views, contains, contains_exec,
    lemma_trim_start_skip, lemma_trim_end_take, lemma_trim_matches_keeps,
    lemma_trim_matches_strips_pair, lemma_index_of_char, trim_end,
};
use crate::time::{
    Timestamp, TimeV, chrono_parse_rfc3339, chrono_parse_ymd_midnight, rfc3339_parsed, time_from_parts,
    ymd_midnight_parsed,
};

verus! {

/// A line is blank when it holds only whitespace.
pub open spec fn is_blank(line: Seq<char>) -> bool {
    trim(line).len() == 0
}

/// Index of the first non-blank line at or after `i` (`ls.len()` when there is none).
pub open spec fn skip_blank(ls: Seq<Seq<char>>, i: int) -> int
    decreases ls.len() - i,
{
    if i < 0 || i >= ls.len() {
        if i < 0 { 0 } else { i }
    } else if is_blank(ls[i]) {
        skip_blank(ls, i + 1)
    } else {
        i
    }
}

/// Text of a top-level ATX heading (`# Title`, not `## ..`), trimmed.
pub open spec fn h1_text(line: Seq<char>) -> Option<Seq<char>> {
    let t = trim(line);
    if starts_with(t, seq!['#', ' ']) && !starts_with(t.skip(2), seq!['#']) {
        Some(trim(t.skip(2)))
    } else {
        None
    }
}

/// Index of the first top-level heading line at or after `i`.
pub open spec fn first_h1(ls: Seq<Seq<char>>, i: int) -> Option<int>
    decreases ls.len() - i,
{
    if i < 0 || i >= ls.len() {
        None
    } else if h1_text(ls[i]) is Some {
        Some(i)
    } else {
        first_h1(ls, i + 1)
    }
}

/// A block-quote line: its trimmed text starts with `>`.
pub open spec fn is_quote_line(line: Seq<char>) -> bool {
    starts_with(trim(line), seq!['>'])
}

/// A quote line without its `>` marker and one following space.
pub open spec fn dequote(line: Seq<char>) -> Seq<char> {
    let r = trim(line).skip(1);
    if starts_with(r, seq![' ']) {
        r.skip(1)
    } else {
        r
    }
}

/// The de-quoted run of consecutive quote lines starting at `i`.
pub open spec fn quote_run(ls: Seq<Seq<char>>, i: int) -> Seq<Seq<char>>
    decreases ls.len() - i,
{
    if 0 <= i < ls.len() && is_quote_line(ls[i]) {
        seq![dequote(ls[i])] + quote_run(ls, i + 1)
    } else {
        seq![]
    }
}

/// `(title, summary)` of a Markdown text: the first `# ` heading (else `fallback`), and the
/// block quote that directly follows it, blank lines aside, de-quoted and joined by newlines.
pub open spec fn title_and_summary(md: Seq<char>, fallback: Seq<char>) -> (Seq<char>, Seq<char>) {
    let ls = lines(md);
    match first_h1(ls, 0) {
        None => (fallback, seq![]),
        Some(k) => (h1_text(ls[k])->0, join(quote_run(ls, skip_blank(ls, k + 1)), seq!['\n'])),
    }
}

pub proof fn lemma_skip_blank_bounds(ls: Seq<Seq<char>>, i: int)
    requires
        0 <= i,
    ensures
        i <= skip_blank(ls, i),
        i <= ls.len() ==> skip_blank(ls, i) <= ls.len(),
        skip_blank(ls, i) < ls.len() ==> !is_blank(ls[skip_blank(ls, i)]),
        forall|j: int| i <= j < skip_blank(ls, i) ==> is_blank(#[trigger] ls[j]),
    decreases ls.len() - i,
{
    if i < ls.len() && is_blank(ls[i]) {
        lemma_skip_blank_bounds(ls, i + 1);
    }
}

/// Whether the line holds only whitespace.
pub fn is_blank_exec(line: &[char]) -> (r: bool)
    ensures
        r == is_blank(line@),
{
    let (a, b) = trim_bounds(line);
    a == b
}

/// First non-blank line at or after `i`.
pub fn skip_blank_exec(ls: &Vec<Vec<char>>, i: usize) -> (r: usize)
    ensures
        r == skip_blank(views(ls@), i as int),
        i <= ls.len() ==> r <= ls.len(),
{
    let mut j = i;
    while j < ls.len() && is_blank_exec(ls[j].as_slice())
        invariant
            i <= j,
            i <= ls.len() ==> j <= ls.len(),
            skip_blank(views(ls@), j as int) == skip_blank(views(ls@), i as int),
        decreases ls.len() - j,
    {
        j += 1;
    }
    j
}

/// The heading text when the line is a top-level `# ` heading.
pub fn h1_text_exec(line: &[char]) -> (r: Option<Vec<char>>)
    ensures
        match r {
            Some(t) => h1_text(line@) == Some(t@),
            None => h1_text(line@) is None,
        },
{
    let t = trimmed(line);
    let hs = ['#', ' '];
    if !starts_with_exec(t.as_slice(), hs.as_slice()) {
        proof {
            assert(hs@ =~= seq!['#', ' ']);
        }
        return None;
    }
    let rest = slice_to_vec(t.as_slice(), 2, t.len());
    let h = ['#'];
    proof {
        assert(hs@ =~= seq!['#', ' ']);
        assert(h@ =~= seq!['#']);
        assert(rest@ =~= t@.skip(2));
    }
    if starts_with_exec(rest.as_slice(), h.as_slice()) {
        None
    } else {
        Some(trimmed(rest.as_slice()))
    }
}

/// Whether the line is a block-quote line.
pub fn is_quote_line_exec(line: &[char]) -> (r: bool)
    ensures
        r == is_quote_line(line@),
{
    let t = trimmed(line);
    let q = ['>'];
    proof {
        assert(q@ =~= seq!['>']);
    }
    starts_with_exec(t.as_slice(), q.as_slice())
}

/// The de-quoted text of a quote line.
pub fn dequote_exec(line: &[char]) -> (r: Vec<char>)
    requires
        is_quote_line(line@),
    ensures
        r@ == dequote(line@),
{
    let t = trimmed(line);
    let r = slice_to_vec(t.as_slice(), 1, t.len());
    assert(r@ =~= t@.skip(1));
    if r.len() > 0 && r[0] == ' ' {
        let s = slice_to_vec(r.as_slice(), 1, r.len());
        assert(s@ =~= r@.skip(1));
        assert(r@.take(1) =~= seq![' ']);
        s
    } else {
        proof {
            if r@.len() > 0 {
                assert(r@.take(1)[0] == r@[0]);
            }
        }
        r
    }
}

/// The de-quoted quote run starting at `i`, and the index just after it.
pub fn quote_run_exec(ls: &Vec<Vec<char>>, i: usize) -> (r: (Vec<Vec<char>>, usize))
    requires
        i <= ls.len(),
    ensures
        views(r.0@) == quote_run(views(ls@), i as int),
        i <= r.1 <= ls.len(),
        r.1 - i == r.0@.len(),
{
    let mut out: Vec<Vec<char>> = Vec::new();
    let mut j = i;
    while j < ls.len() && is_quote_line_exec(ls[j].as_slice())
        invariant
            i <= j <= ls.len(),
            j - i == out@.len(),
            views(out@) + quote_run(views(ls@), j as int) == quote_run(views(ls@), i as int),
        decreases ls.len() - j,
    {
        let d = dequote_exec(ls[j].as_slice());
        proof {
            assert(views(out@.push(d)) =~= views(out@) + seq![d@]);
            assert(views(ls@)[j as int] == ls@[j as int]@);
        }
        out.push(d);
        j += 1;
    }
    proof {
        assert(views(out@) + seq![] =~= views(out@));
    }
    (out, j)
}

/// Title (first `# ` heading, else `fallback`) and summary (the block quote right after that
/// heading, de-quoted, lines joined with `\n`; empty when there is none).
pub fn parse_title_and_summary(markdown: &str, fallback: &str) -> (r: (String, String))
    ensures
        (r.0@, r.1@) == title_and_summary(markdown@, fallback@),
{
    let md = chars_of(markdown);
    let ls = lines_of(md.as_slice());
    let ghost lv = views(ls@);
    let mut idx: usize = 0;
    while idx < ls.len()
        invariant
            idx <= ls.len(),
            lv == views(ls@),
            lv == lines(markdown@),
            first_h1(lv, idx as int) == first_h1(lv, 0),
        decreases ls.len() - idx,
    {
        match h1_text_exec(ls[idx].as_slice()) {
            Some(title) => {
                let start = skip_blank_exec(&ls, idx + 1);
                let (quotes, _) = quote_run_exec(&ls, start);
                let nl = ['\n'];
                let summary = join_exec(&quotes, nl.as_slice());
                proof {
                    assert(nl@ =~= seq!['\n']);
                    assert(lv[idx as int] == ls@[idx as int]@);
                    assert(first_h1(lv, idx as int) == Some(idx as int));
                    assert(lines(markdown@) == lv);
                    assert(h1_text(lv[idx as int])->0 == title@);
                    assert(summary@ == join(quote_run(lv, skip_blank(lv, idx + 1)), seq!['\n']));
                    assert(title_and_summary(markdown@, fallback@) == (title@, summary@));
                }
                return (string_of(title.as_slice()), string_of(summary.as_slice()));
            },
            None => {
                proof {
                    assert(lv[idx as int] == ls@[idx as int]@);
                }
                idx += 1;
            },
        }
    }
    (String::from_str(fallback), String::new())
}


/// Index of the first line at or after `i` whose trimmed text is `d`.
pub open spec fn delimiter_line(ls: Seq<Seq<char>>, d: Seq<char>, i: int) -> Option<int>
    decreases ls.len() - i,
{
    if i < 0 || i >= ls.len() {
        None
    } else if trim(ls[i]) == d {
        Some(i)
    } else {
        delimiter_line(ls, d, i + 1)
    }
}

/// `(front matter block, rest)`: when the first line is the (trimmed) delimiter and a later line
/// closes it, the lines between, and the lines after the closing one, each joined by newlines;
/// otherwise an empty block and the whole text.
pub open spec fn split_frontmatter(md: Seq<char>, delimiter: Seq<char>) -> (Seq<char>, Seq<char>) {
    let d = trim(delimiter);
    let ls = lines(md);
    if d.len() == 0 || ls.len() == 0 || trim(ls[0]) != d {
        (seq![], md)
    } else {
        match delimiter_line(ls, d, 1) {
            None => (seq![], md),
            Some(c) => (join(ls.subrange(1, c), seq!['\n']), join(ls.skip(c + 1), seq!['\n'])),
        }
    }
}

fn split_frontmatter_raw(markdown: &[char], delimiter: &[char]) -> (r: (Vec<char>, Vec<char>))
    ensures
        (r.0@, r.1@) == split_frontmatter(markdown@, delimiter@),
{
    let d = trimmed(delimiter);
    if d.len() == 0 {
        return (Vec::new(), slice_to_vec(markdown, 0, markdown.len()));
    }
    let ls = lines_of(markdown);
    let ghost lv = views(ls@);
    if ls.len() == 0 {
        return (Vec::new(), slice_to_vec(markdown, 0, markdown.len()));
    }
    let first = trimmed(ls[0].as_slice());
    if !eq_chars(first.as_slice(), d.as_slice()) {
        proof {
            assert(lv[0] == ls@[0]@);
        }
        return (Vec::new(), slice_to_vec(markdown, 0, markdown.len()));
    }
    let mut i: usize = 1;
    while i < ls.len()
        invariant
            1 <= i <= ls.len(),
            lv == views(ls@),
            lv == lines(markdown@),
            d@ == trim(delimiter@),
            d@.len() > 0,
            lv.len() > 0,
            trim(lv[0]) == d@,
            delimiter_line(lv, d@, i as int) == delimiter_line(lv, d@, 1),
        decreases ls.len() - i,
    {
        let t = trimmed(ls[i].as_slice());
        proof {
            assert(lv[i as int] == ls@[i as int]@);
        }
        if eq_chars(t.as_slice(), d.as_slice()) {
            let mut inner: Vec<Vec<char>> = Vec::new();
            let mut k: usize = 1;
            while k < i
                invariant
                    1 <= k <= i < ls.len(),
                    lv == views(ls@),
                    views(inner@) == lv.subrange(1, k as int),
                decreases i - k,
            {
                let c = copy_chars(ls[k].as_slice());
                proof {
                    assert(lv[k as int] == ls@[k as int]@);
                    assert(views(inner@.push(c)) =~= views(inner@).push(c@));
                    assert(lv.subrange(1, k + 1) =~= lv.subrange(1, k as int).push(lv[k as int]));
                }
                inner.push(c);
                k += 1;
            }
            let mut rest: Vec<Vec<char>> = Vec::new();
            let mut k2: usize = i + 1;
            while k2 < ls.len()
                invariant
                    i + 1 <= k2 <= ls.len(),
                    lv == views(ls@),
                    views(rest@) == lv.subrange(i + 1, k2 as int),
                decreases ls.len() - k2,
            {
                let c = copy_chars(ls[k2].as_slice());
                proof {
                    assert(lv[k2 as int] == ls@[k2 as int]@);
                    assert(views(rest@.push(c)) =~= views(rest@).push(c@));
                    assert(lv.subrange(i + 1, k2 + 1) =~= lv.subrange(i + 1, k2 as int).push(
                        lv[k2 as int],
                    ));
                }
                rest.push(c);
                k2 += 1;
            }
            let nl = ['\n'];
            proof {
                assert(nl@ =~= seq!['\n']);
                assert(lv.subrange(i + 1, ls.len() as int) =~= lv.skip(i + 1));
                assert(delimiter_line(lv, d@, i as int) == Some(i as int));
            }
            return (join_exec(&inner, nl.as_slice()), join_exec(&rest, nl.as_slice()));
        }
        i += 1;
    }
    (Vec::new(), slice_to_vec(markdown, 0, markdown.len()))
}

/// Front matter fields; each is absent until a `key: value` line sets it.
pub struct FrontmatterV {
    pub title: Option<Seq<char>>,
    pub description: Option<Seq<char>>,
    pub date: Option<TimeV>,
    pub lastmod: Option<TimeV>,
}

/// Key and value of a `key: value` line, split at the first `:`.
pub open spec fn split_once_colon(line: Seq<char>) -> Option<(Seq<char>, Seq<char>)> {
    let k = index_of_char(line, ':');
    if k < line.len() {
        Some((line.take(k as int), line.skip((k + 1) as int)))
    } else {
        None
    }
}

/// A front matter value: trimmed, then stripped of surrounding `"` and then `'` characters.
pub open spec fn fm_value(raw: Seq<char>) -> Seq<char> {
    trim_matches(trim_matches(trim(raw), '"'), '\'')
}

/// A front matter value written between double quotes (or single quotes), with any whitespace
/// around it, is the text between the quotes, as long as that text does not itself begin or end
/// with a quote character: the line `title: "T"` sets the title to `T`.
pub proof fn law_quoted_frontmatter_value(
    lead: Seq<char>,
    q: char,
    t: Seq<char>,
    trail: Seq<char>,
    fm: FrontmatterV,
)
    requires
        q == '"' || q == '\'',
        forall|i: int| 0 <= i < lead.len() ==> is_ws(#[trigger] lead[i]),
        forall|i: int| 0 <= i < trail.len() ==> is_ws(#[trigger] trail[i]),
        t.len() > 0 ==> t[0] != '"' && t[0] != '\'' && t.last() != '"' && t.last() != '\'',
    ensures
        fm_value(lead + seq![q] + t + seq![q] + trail) == t,
        t.len() > 0 ==> fm_step(fm, "title:"@ + lead + seq![q] + t + seq![q] + trail).title
            == Some(t),
{
    let core = seq![q] + t + seq![q];
    let raw = lead + core + trail;
    assert(lead + seq![q] + t + seq![q] + trail =~= raw);
    assert(!is_ws('"') && !is_ws('\''));
    lemma_trim_start_skip(raw, lead.len() as int);
    assert(raw.skip(lead.len() as int) =~= core + trail);
    assert((core + trail)[0] == q);
    assert(trim_start(core + trail) == core + trail);
    lemma_trim_end_take(core + trail, core.len() as int);
    assert((core + trail).take(core.len() as int) =~= core);
    assert(core.last() == q);
    assert(trim_end(core) == core);
    assert(trim(raw) == core);
    if q == '"' {
        lemma_trim_matches_strips_pair(t, '"');
        lemma_trim_matches_keeps(t, '\'');
    } else {
        assert(core[0] == q && core.last() == q);
        lemma_trim_matches_keeps(core, '"');
        lemma_trim_matches_strips_pair(t, '\'');
    }
    assert(fm_value(raw) == t);
    if t.len() > 0 {
        reveal_strlit("title:");
        reveal_strlit("title");
        let line = "title:"@ + raw;
        assert(line =~= "title:"@ + lead + seq![q] + t + seq![q] + trail);
        lemma_index_of_char(line, ':', 5);
        assert(line.take(5) =~= "title"@);
        assert(line.skip(6) =~= raw);
        assert(!is_ws('t') && !is_ws('e'));
        assert(trim_start("title"@) == "title"@);
        assert(trim_end("title"@) == "title"@);
        assert(trim(line.take(5)) == "title"@);
    }
}

/// The date a front matter value denotes: RFC 3339 when it parses so, otherwise a
/// `YYYY-MM-DD` day at midnight UTC.
pub open spec fn frontmatter_date(value: Seq<char>) -> Option<TimeV> {
    match rfc3339_parsed(value) {
        Some(p) => time_from_parts(p.0 as int, p.1 as int, p.2 as int),
        None => match ymd_midnight_parsed(value) {
            Some(s) => time_from_parts(s as int, 0, 0),
            None => None,
        },
    }
}

/// The effect of one front matter line: `title`, `description`, `date` and `lastmod` keys with
/// a non-empty value set their field; anything else leaves the fields as they are.
pub open spec fn fm_step(fm: FrontmatterV, line: Seq<char>) -> FrontmatterV {
    match split_once_colon(line) {
        None => fm,
        Some(kv) => {
            let key = trim(kv.0);
            let value = fm_value(kv.1);
            if value.len() == 0 {
                fm
            } else if key == "title"@ {
                FrontmatterV { title: Some(value), ..fm }
            } else if key == "description"@ {
                FrontmatterV { description: Some(value), ..fm }
            } else if key == "date"@ {
                FrontmatterV { date: frontmatter_date(value), ..fm }
            } else if key == "lastmod"@ {
                FrontmatterV { lastmod: frontmatter_date(value), ..fm }
            } else {
                fm
            }
        },
    }
}

pub open spec fn empty_frontmatter() -> FrontmatterV {
    FrontmatterV { title: None, description: None, date: None, lastmod: None }
}

/// Front matter after the first `n` lines.
pub open spec fn fm_fold(ls: Seq<Seq<char>>, n: int) -> FrontmatterV
    decreases n,
{
    if n <= 0 {
        empty_frontmatter()
    } else {
        fm_step(fm_fold(ls, n - 1), ls[n - 1])
    }
}

/// Front matter fields of a block (without its delimiters).
pub open spec fn frontmatter_of(raw: Seq<char>) -> FrontmatterV {
    fm_fold(lines(raw), lines(raw).len() as int)
}

pub open spec fn opt_str(o: Option<String>) -> Option<Seq<char>> {
    match o {
        Some(s) => Some(s@),
        None => None,
    }
}

pub open spec fn opt_time(o: Option<Timestamp>) -> Option<TimeV> {
    match o {
        Some(t) => Some(t@),
        None => None,
    }
}

/// Metadata read from a Markdown front matter block.
#[derive(Debug, Clone)]
pub struct Frontmatter {
    pub title: Option<String>,
    pub description: Option<String>,
    /// Publication time (`date` in front matter).
    pub date: Option<Timestamp>,
    /// Last modified time (`lastmod` in front matter).
    pub lastmod: Option<Timestamp>,
}

impl View for Frontmatter {
    type V = FrontmatterV;

    open spec fn view(&self) -> FrontmatterV {
        FrontmatterV {
            title: opt_str(self.title),
            description: opt_str(self.description),
            date: opt_time(self.date),
            lastmod: opt_time(self.lastmod),
        }
    }
}

impl Frontmatter {
    /// No field is set.
    pub fn is_empty(&self) -> (r: bool)
        ensures
            r == (self.title is None && self.description is None && self.date is None
                && self.lastmod is None),
    {
        self.title.is_none() && self.description.is_none() && self.date.is_none()
            && self.lastmod.is_none()
    }
}

fn parse_frontmatter_date(value: &[char]) -> (r: Option<Timestamp>)
    ensures
        opt_time(r) == frontmatter_date(value@),
{
    let text = string_of(value);
    match chrono_parse_rfc3339(text.as_str()) {
        Some((s, n, o)) => Timestamp::from_parts(s, n, o),
        None => match chrono_parse_ymd_midnight(text.as_str()) {
            Some(secs) => Timestamp::from_parts(secs, 0, 0),
            None => None,
        },
    }
}

fn parse_frontmatter_fields(raw: &[char]) -> (r: Frontmatter)
    ensures
        r@ == frontmatter_of(raw@),
{
    let mut fm = Frontmatter { title: None, description: None, date: None, lastmod: None };
    let ls = lines_of(raw);
    let ghost lv = views(ls@);
    let k_title = chars_of("title");
    let k_description = chars_of("description");
    let k_date = chars_of("date");
    let k_lastmod = chars_of("lastmod");
    let mut i: usize = 0;
    while i < ls.len()
        invariant
            i <= ls.len(),
            lv == views(ls@),
            lv == lines(raw@),
            fm@ == fm_fold(lv, i as int),
            k_title@ == "title"@,
            k_description@ == "description"@,
            k_date@ == "date"@,
            k_lastmod@ == "lastmod"@,
        decreases ls.len() - i,
    {
        let line = ls[i].as_slice();
        proof {
            assert(lv[i as int] == line@);
        }
        let k = index_of_char_exec(line, ':');
        if k < line.len() {
            let key = trimmed(slice_to_vec(line, 0, k).as_slice());
            let v1 = trimmed(slice_to_vec(line, k + 1, line.len()).as_slice());
            let v2 = trim_matches_exec(v1.as_slice(), '"');
            let value = trim_matches_exec(v2.as_slice(), '\'');
            proof {
                assert(line@.take(k as int) =~= line@.subrange(0, k as int));
                assert(line@.skip(k + 1) =~= line@.subrange(k + 1, line@.len() as int));
            }
            if value.len() > 0 {
                if eq_chars(key.as_slice(), k_title.as_slice()) {
                    fm.title = Some(string_of(value.as_slice()));
                } else if eq_chars(key.as_slice(), k_description.as_slice()) {
                    fm.description = Some(string_of(value.as_slice()));
                } else if eq_chars(key.as_slice(), k_date.as_slice()) {
                    fm.date = parse_frontmatter_date(value.as_slice());
                } else if eq_chars(key.as_slice(), k_lastmod.as_slice()) {
                    fm.lastmod = parse_frontmatter_date(value.as_slice());
                }
            }
        }
        i += 1;
    }
    fm
}


/// What `str::to_lowercase` gives for a text (Unicode lowercase mapping).
pub uninterp spec fn lowercase(s: Seq<char>) -> Seq<char>;

/// Calls `str::to_lowercase`; the contract names the result only.
#[verifier::external_body]
fn to_lowercase(s: &str) -> (r: String)
    ensures
        r@ == lowercase(s@),
{
    s.to_lowercase()
}

/// The paragraph reads like a TL;DR lede: its lowercase form holds `tl;dr` or `tldr`.
pub open spec fn looks_like_tldr(text: Seq<char>) -> bool {
    contains(lowercase(text), "tl;dr"@) || contains(lowercase(text), "tldr"@)
}

fn line_looks_like_tldr_lede(text: &[char]) -> (r: bool)
    ensures
        r == looks_like_tldr(text@),
{
    let s = string_of(text);
    let lower = chars_of(to_lowercase(s.as_str()).as_str());
    let a = chars_of("tl;dr");
    let b = chars_of("tldr");
    contains_exec(lower.as_slice(), a.as_slice()) || contains_exec(lower.as_slice(), b.as_slice())
}

/// The lines of the paragraph starting at `i`: consecutive non-blank lines, untrimmed.
pub open spec fn para_run(ls: Seq<Seq<char>>, i: int) -> Seq<Seq<char>>
    decreases ls.len() - i,
{
    if 0 <= i < ls.len() && !is_blank(ls[i]) {
        seq![ls[i]] + para_run(ls, i + 1)
    } else {
        seq![]
    }
}

/// Where the summary of an article body comes from.
pub enum SummaryV {
    Absent,
    /// The block quote on lines `start..=end`, de-quoted and joined by newlines.
    Blockquote { start: int, end: int, markdown: Seq<char> },
    /// The TL;DR paragraph on lines `start..=end`, joined by newlines.
    Tldr { start: int, end: int, markdown: Seq<char> },
}

/// Title, heading line and summary source of an article body.
pub struct BodyIntroV {
    pub title: Seq<char>,
    pub h1: Option<int>,
    pub summary: SummaryV,
}

/// The intro of a body: the first non-blank line is the title when it is a `# ` heading
/// (else the title is `fallback`); the first non-blank line after it is the summary when it
/// opens a block quote (the whole quote run) or a paragraph that reads like a TL;DR lede.
pub open spec fn body_intro(ls: Seq<Seq<char>>, fallback: Seq<char>) -> BodyIntroV {
    let i0 = skip_blank(ls, 0);
    if i0 >= ls.len() {
        BodyIntroV { title: fallback, h1: None, summary: SummaryV::Absent }
    } else {
        let title = match h1_text(ls[i0]) {
            Some(t) => t,
            None => fallback,
        };
        let h1 = if h1_text(ls[i0]) is Some { Some(i0) } else { None };
        let i1 = if h1_text(ls[i0]) is Some { i0 + 1 } else { i0 };
        let i2 = skip_blank(ls, i1);
        if i2 >= ls.len() {
            BodyIntroV { title, h1, summary: SummaryV::Absent }
        } else if starts_with(trim_start(ls[i2]), seq!['>']) {
            let run = quote_run(ls, i2);
            if run.len() == 0 {
                BodyIntroV { title, h1, summary: SummaryV::Absent }
            } else {
                BodyIntroV {
                    title,
                    h1,
                    summary: SummaryV::Blockquote {
                        start: i2,
                        end: i2 + run.len() - 1,
                        markdown: join(run, seq!['\n']),
                    },
                }
            }
        } else {
            let para = para_run(ls, i2);
            let joined = join(para, seq!['\n']);
            if joined.len() == 0 || !looks_like_tldr(joined) {
                BodyIntroV { title, h1, summary: SummaryV::Absent }
            } else {
                BodyIntroV {
                    title,
                    h1,
                    summary: SummaryV::Tldr { start: i2, end: i2 + para.len() - 1, markdown: joined },
                }
            }
        }
    }
}

enum BodySummaryKind {
    Absent,
    Blockquote { start: usize, end: usize, markdown: Vec<char> },
    TldrParagraph { start: usize, end: usize, markdown: Vec<char> },
}

impl View for BodySummaryKind {
    type V = SummaryV;

    closed spec fn view(&self) -> SummaryV {
        match self {
            BodySummaryKind::Absent => SummaryV::Absent,
            BodySummaryKind::Blockquote { start, end, markdown } => SummaryV::Blockquote {
                start: *start as int,
                end: *end as int,
                markdown: markdown@,
            },
            BodySummaryKind::TldrParagraph { start, end, markdown } => SummaryV::Tldr {
                start: *start as int,
                end: *end as int,
                markdown: markdown@,
            },
        }
    }
}

pub open spec fn opt_index(o: Option<usize>) -> Option<int> {
    match o {
        Some(i) => Some(i as int),
        None => None,
    }
}

fn para_run_exec(ls: &Vec<Vec<char>>, i: usize) -> (r: (Vec<Vec<char>>, usize))
    requires
        i <= ls.len(),
    ensures
        views(r.0@) == para_run(views(ls@), i as int),
        i <= r.1 <= ls.len(),
        r.1 - i == r.0@.len(),
{
    let mut out: Vec<Vec<char>> = Vec::new();
    let mut j = i;
    while j < ls.len() && !is_blank_exec(ls[j].as_slice())
        invariant
            i <= j <= ls.len(),
            j - i == out@.len(),
            views(out@) + para_run(views(ls@), j as int) == para_run(views(ls@), i as int),
        decreases ls.len() - j,
    {
        let c = copy_chars(ls[j].as_slice());
        proof {
            assert(views(out@.push(c)) =~= views(out@) + seq![c@]);
            assert(views(ls@)[j as int] == ls@[j as int]@);
        }
        out.push(c);
        j += 1;
    }
    proof {
        assert(views(out@) + seq![] =~= views(out@));
    }
    (out, j)
}

fn parse_body_intro(ls: &Vec<Vec<char>>, fallback_title: &[char]) -> (r: (
    Vec<char>,
    Option<usize>,
    BodySummaryKind,
))
    ensures
        ({
            let v = body_intro(views(ls@), fallback_title@);
            r.0@ == v.title && opt_index(r.1) == v.h1 && r.2@ == v.summary
        }),
        r.1 matches Some(h) ==> h < ls.len(),
{
    let ghost lv = views(ls@);
    let i0 = skip_blank_exec(ls, 0);
    if i0 >= ls.len() {
        return (copy_chars(fallback_title), None, BodySummaryKind::Absent);
    }
    proof {
        assert(lv[i0 as int] == ls@[i0 as int]@);
    }
    let mut i = i0;
    let mut h1_idx: Option<usize> = None;
    let body_title = match h1_text_exec(ls[i0].as_slice()) {
        Some(t) => {
            h1_idx = Some(i0);
            i = i0 + 1;
            t
        },
        None => copy_chars(fallback_title),
    };
    let i2 = skip_blank_exec(ls, i);
    if i2 >= ls.len() {
        return (body_title, h1_idx, BodySummaryKind::Absent);
    }
    proof {
        assert(lv[i2 as int] == ls@[i2 as int]@);
    }
    let (a, _) = trim_bounds(ls[i2].as_slice());
    let ts = slice_to_vec(ls[i2].as_slice(), a, ls[i2].len());
    let q = ['>'];
    proof {
        assert(q@ =~= seq!['>']);
        assert(ts@ =~= ls@[i2 as int]@.skip(a as int));
    }
    let nl = ['\n'];
    proof {
        assert(nl@ =~= seq!['\n']);
    }
    if starts_with_exec(ts.as_slice(), q.as_slice()) {
        let (run, end_next) = quote_run_exec(ls, i2);
        if run.len() == 0 {
            return (body_title, h1_idx, BodySummaryKind::Absent);
        }
        let markdown = join_exec(&run, nl.as_slice());
        return (
            body_title,
            h1_idx,
            BodySummaryKind::Blockquote { start: i2, end: end_next - 1, markdown },
        );
    }
    let (para, end_next) = para_run_exec(ls, i2);
    let joined = join_exec(&para, nl.as_slice());
    if joined.len() == 0 || !line_looks_like_tldr_lede(joined.as_slice()) {
        return (body_title, h1_idx, BodySummaryKind::Absent);
    }
    (
        body_title,
        h1_idx,
        BodySummaryKind::TldrParagraph { start: i2, end: end_next - 1, markdown: joined },
    )
}

/// Line `i` stays in the article body: it is not the title heading, and not part of the
/// summary when the summary is taken out.
pub open spec fn line_kept(i: int, h1: Option<int>, summary: SummaryV, strip: bool) -> bool {
    &&& h1 != Some(i)
    &&& !(strip && match summary {
        SummaryV::Blockquote { start, end, .. } => start <= i <= end,
        SummaryV::Tldr { start, end, .. } => start <= i <= end,
        SummaryV::Absent => false,
    })
}

/// The kept lines among the first `n`.
pub open spec fn kept_lines(
    ls: Seq<Seq<char>>,
    h1: Option<int>,
    summary: SummaryV,
    strip: bool,
    n: int,
) -> Seq<Seq<char>>
    decreases n,
{
    if n <= 0 {
        seq![]
    } else {
        let prev = kept_lines(ls, h1, summary, strip, n - 1);
        if line_kept(n - 1, h1, summary, strip) {
            prev.push(ls[n - 1])
        } else {
            prev
        }
    }
}

/// The body without the title heading (and the summary when `strip`), joined and trimmed.
pub open spec fn body_after_strip(
    ls: Seq<Seq<char>>,
    h1: Option<int>,
    summary: SummaryV,
    strip: bool,
) -> Seq<char> {
    trim(join(kept_lines(ls, h1, summary, strip, ls.len() as int), seq!['\n']))
}

fn build_body_markdown_after_strip(
    rest_lines: &Vec<Vec<char>>,
    h1_idx: Option<usize>,
    body_summary: &BodySummaryKind,
    strip_body_summary: bool,
) -> (r: Vec<char>)
    ensures
        r@ == body_after_strip(views(rest_lines@), opt_index(h1_idx), body_summary@, strip_body_summary),
{
    let ghost lv = views(rest_lines@);
    let mut out: Vec<Vec<char>> = Vec::new();
    let mut i: usize = 0;
    while i < rest_lines.len()
        invariant
            i <= rest_lines.len(),
            lv == views(rest_lines@),
            views(out@) == kept_lines(lv, opt_index(h1_idx), body_summary@, strip_body_summary, i as int),
        decreases rest_lines.len() - i,
    {
        let in_summary = strip_body_summary && match body_summary {
            BodySummaryKind::Blockquote { start, end, .. } => *start <= i && i <= *end,
            BodySummaryKind::TldrParagraph { start, end, .. } => *start <= i && i <= *end,
            BodySummaryKind::Absent => false,
        };
        let is_h1 = match h1_idx {
            Some(h) => h == i,
            None => false,
        };
        if !is_h1 && !in_summary {
            let c = copy_chars(rest_lines[i].as_slice());
            proof {
                assert(lv[i as int] == rest_lines@[i as int]@);
                assert(views(out@.push(c)) =~= views(out@).push(c@));
            }
            out.push(c);
        }
        i += 1;
    }
    let nl = ['\n'];
    proof {
        assert(nl@ =~= seq!['\n']);
    }
    let joined = join_exec(&out, nl.as_slice());
    trimmed(joined.as_slice())
}

/// Mathematical content of [`ArticleRenderParts`].
pub struct ArticlePartsV {
    pub title: Seq<char>,
    pub summary_markdown: Seq<char>,
    pub publication_date: Option<TimeV>,
    pub last_modified: Option<TimeV>,
    pub body_markdown: Seq<char>,
}

/// What an article renders from: front matter `title` over the body's heading, front matter
/// `description` over the body's summary, front matter dates, and the body without its heading
/// and, when the summary came from the body, without that summary.
pub open spec fn article_parts(md: Seq<char>, fallback: Seq<char>, delimiter: Seq<char>) -> ArticlePartsV {
    let (fm_inner, rest) = split_frontmatter(md, delimiter);
    let fm = frontmatter_of(fm_inner);
    let ls = lines(rest);
    let intro = body_intro(ls, fallback);
    let summary_from_body = match intro.summary {
        SummaryV::Blockquote { markdown, .. } => markdown,
        SummaryV::Tldr { markdown, .. } => markdown,
        SummaryV::Absent => seq![],
    };
    let strip = fm.description is None && !(intro.summary is Absent);
    ArticlePartsV {
        title: match fm.title {
            Some(t) => t,
            None => intro.title,
        },
        summary_markdown: match fm.description {
            Some(d) => d,
            None => summary_from_body,
        },
        publication_date: fm.date,
        last_modified: fm.lastmod,
        body_markdown: body_after_strip(ls, intro.h1, intro.summary, strip),
    }
}

/// Title, summary markdown, optional dates, and markdown for `<main>` (leading title / lede removed).
#[derive(Debug, Clone)]
pub struct ArticleRenderParts {
    pub title: String,
    pub summary_markdown: String,
    pub publication_date: Option<Timestamp>,
    pub last_modified: Option<Timestamp>,
    pub body_markdown: String,
}

impl View for ArticleRenderParts {
    type V = ArticlePartsV;

    open spec fn view(&self) -> ArticlePartsV {
        ArticlePartsV {
            title: self.title@,
            summary_markdown: self.summary_markdown@,
            publication_date: opt_time(self.publication_date),
            last_modified: opt_time(self.last_modified),
            body_markdown: self.body_markdown@,
        }
    }
}

/// Parses front matter and body intro, then returns metadata plus markdown for the article body
/// without the displayed title and lede (blockquote summary, TL;DR paragraph, or nothing when
/// description comes only from front matter).
pub fn article_render_parts(
    markdown: &str,
    fallback_title: &str,
    frontmatter_delimiter: &str,
) -> (r: ArticleRenderParts)
    ensures
        r@ == article_parts(markdown@, fallback_title@, frontmatter_delimiter@),
{
    let md = chars_of(markdown);
    let delim = chars_of(frontmatter_delimiter);
    let fallback = chars_of(fallback_title);
    let (fm_inner, rest) = split_frontmatter_raw(md.as_slice(), delim.as_slice());
    let frontmatter = parse_frontmatter_fields(fm_inner.as_slice());
    let rest_lines = lines_of(rest.as_slice());
    let (body_title, h1_idx, kind) = parse_body_intro(&rest_lines, fallback.as_slice());
    let title = match frontmatter.title {
        Some(t) => t,
        None => string_of(body_title.as_slice()),
    };
    let strip = frontmatter.description.is_none() && !matches!(kind, BodySummaryKind::Absent);
    let body = build_body_markdown_after_strip(&rest_lines, h1_idx, &kind, strip);
    let summary_markdown = match frontmatter.description {
        Some(d) => d,
        None => match kind {
            BodySummaryKind::Blockquote { markdown, .. } => string_of(markdown.as_slice()),
            BodySummaryKind::TldrParagraph { markdown, .. } => string_of(markdown.as_slice()),
            BodySummaryKind::Absent => String::new(),
        },
    };
    ArticleRenderParts {
        title,
        summary_markdown,
        publication_date: frontmatter.date,
        last_modified: frontmatter.lastmod,
        body_markdown: string_of(body.as_slice()),
    }
}

/// Title, summary, publication date and last modification date of a Markdown source.
pub fn parse_content_metadata(
    markdown: &str,
    fallback_title: &str,
    frontmatter_delimiter: &str,
) -> (r: (String, String, Option<Timestamp>, Option<Timestamp>))
    ensures
        ({
            let p = article_parts(markdown@, fallback_title@, frontmatter_delimiter@);
            &&& r.0@ == p.title
            &&& r.1@ == p.summary_markdown
            &&& opt_time(r.2) == p.publication_date
            &&& opt_time(r.3) == p.last_modified
        }),
{
    let parts = article_render_parts(markdown, fallback_title, frontmatter_delimiter);
    (parts.title, parts.summary_markdown, parts.publication_date, parts.last_modified)
}


/// The front matter delimiter handed to the Markdown renderer: none when it is blank.
pub open spec fn delimiter_option(d: Seq<char>) -> Option<Seq<char>> {
    if trim(d).len() == 0 {
        None
    } else {
        Some(d)
    }
}

/// The front matter delimiter to hand to the Markdown renderer: none when it is blank.
pub fn frontmatter_delimiter_option(frontmatter_delimiter: &str) -> (r: Option<String>)
    ensures
        opt_str(r) == delimiter_option(frontmatter_delimiter@),
{
    let d = chars_of(frontmatter_delimiter);
    if is_blank_exec(d.as_slice()) {
        None
    } else {
        Some(String::from_str(frontmatter_delimiter))
    }
}

/// What `comrak::markdown_to_html` gives for a text with footnotes, strikethrough, tables, task
/// lists and alerts on, and the given front matter delimiter.
pub uninterp spec fn comrak_html(md: Seq<char>, front_matter_delimiter: Option<Seq<char>>) -> Seq<
    char,
>;

/// Calls `comrak::markdown_to_html` with default options but footnotes, strikethrough, tables,
/// task lists and alerts on, and the given front matter delimiter; the contract names the
/// result.
///
/// comrak does not document that the call returns on every text: its parser and HTML formatter
/// hold `unwrap`, `expect` and `panic!` sites that no input is known to reach and none is ruled
/// out here. The functions that render through this call are verified on the assumption that
/// it returns, as the program's own rendering does.
#[verifier::external_body]
fn comrak_markdown_to_html(md: &str, front_matter_delimiter: Option<String>) -> (r: String)
    ensures
        r@ == comrak_html(md@, opt_str(front_matter_delimiter)),
{
    let mut options = comrak::Options::default();
    options.extension.footnotes = true;
    options.extension.strikethrough = true;
    options.extension.table = true;
    options.extension.tasklist = true;
    options.extension.alerts = true;
    options.extension.front_matter_delimiter = front_matter_delimiter;
    comrak::markdown_to_html(md, &options)
}

/// Renders Markdown to HTML with footnotes, strikethrough, tables, task lists and alerts, and
/// skips a front matter block opened by `frontmatter_delimiter` (none when it is blank).
pub fn render_markdown_to_html(markdown: &str, frontmatter_delimiter: &str) -> (r: String)
    ensures
        r@ == comrak_html(markdown@, delimiter_option(frontmatter_delimiter@)),
{
    let delim = frontmatter_delimiter_option(frontmatter_delimiter);
    comrak_markdown_to_html(markdown, delim)
}

/// Renders a short Markdown fragment (no front matter) to HTML.
pub fn render_markdown_fragment_to_html(markdown: &str) -> (r: String)
    ensures
        r@ == comrak_html(markdown@, None),
{
    comrak_markdown_to_html(markdown, None)
}


/// The inner HTML of a single top-level paragraph `<p>…</p>` (trimmed), else the trimmed HTML.
pub open spec fn unwrap_single_paragraph(html: Seq<char>) -> Seq<char> {
    let t = trim(html);
    if !starts_with(t, "<p>"@) {
        t
    } else {
        let rest = t.skip(3);
        if !ends_with(rest, "</p>"@) {
            t
        } else {
            let inner = rest.take(rest.len() - 4);
            if contains(inner, "</p>"@) {
                t
            } else {
                trim(inner)
            }
        }
    }
}

/// If `html` is a single top-level `<p>…</p>` from comrak, returns the inner HTML for embedding.
pub fn unwrap_single_paragraph_html(html: &str) -> (r: String)
    ensures
        r@ == unwrap_single_paragraph(html@),
{
    let h = chars_of(html);
    let t = trimmed(h.as_slice());
    let open = chars_of("<p>");
    let close = chars_of("</p>");
    proof {
        reveal_strlit("<p>");
        reveal_strlit("</p>");
    }
    if !starts_with_exec(t.as_slice(), open.as_slice()) {
        return string_of(t.as_slice());
    }
    let rest = slice_to_vec(t.as_slice(), 3, t.len());
    assert(rest@ =~= t@.skip(3));
    if !ends_with_exec(rest.as_slice(), close.as_slice()) {
        return string_of(t.as_slice());
    }
    let inner = slice_to_vec(rest.as_slice(), 0, rest.len() - 4);
    assert(inner@ =~= rest@.take(rest@.len() - 4));
    if contains_exec(inner.as_slice(), close.as_slice()) {
        return string_of(t.as_slice());
    }
    string_of(trimmed(inner.as_slice()).as_slice())
}

/// Text outside `<…>` tags: a `<` opens a tag, the next `>` closes it.
pub open spec fn strip_tags_from(s: Seq<char>, in_tag: bool) -> Seq<char>
    decreases s.len(),
{
    if s.len() == 0 {
        seq![]
    } else {
        let c = s[0];
        let rest = s.drop_first();
        if c == '<' {
            strip_tags_from(rest, true)
        } else if c == '>' && in_tag {
            strip_tags_from(rest, false)
        } else if !in_tag {
            seq![c] + strip_tags_from(rest, false)
        } else {
            strip_tags_from(rest, true)
        }
    }
}

/// Maximal runs of non-whitespace characters (`str::split_whitespace`), `cur` being the run
/// read so far.
pub open spec fn words_from(s: Seq<char>, cur: Seq<char>) -> Seq<Seq<char>>
    decreases s.len(),
{
    if s.len() == 0 {
        if cur.len() > 0 {
            seq![cur]
        } else {
            seq![]
        }
    } else if is_ws(s[0]) {
        (if cur.len() > 0 {
            seq![cur]
        } else {
            seq![]
        }) + words_from(s.drop_first(), seq![])
    } else {
        words_from(s.drop_first(), cur.push(s[0]))
    }
}

/// The words of `s`, joined by single spaces.
pub open spec fn collapse_ws(s: Seq<char>) -> Seq<char> {
    join(words_from(s, seq![]), seq![' '])
}

fn strip_html_tags_collapse_ws(html: &[char]) -> (r: Vec<char>)
    ensures
        r@ == collapse_ws(strip_tags_from(html@, false)),
{
    let mut out: Vec<char> = Vec::new();
    let mut in_tag = false;
    let mut i: usize = 0;
    assert(html@.skip(0) =~= html@);
    while i < html.len()
        invariant
            i <= html.len(),
            out@ + strip_tags_from(html@.skip(i as int), in_tag) == strip_tags_from(html@, false),
        decreases html.len() - i,
    {
        let ch = html[i];
        proof {
            assert(html@.skip(i as int).drop_first() =~= html@.skip(i + 1));
            assert(html@.skip(i as int)[0] == ch);
        }
        if ch == '<' {
            in_tag = true;
        } else if ch == '>' && in_tag {
            in_tag = false;
        } else if !in_tag {
            proof {
                assert(out@.push(ch) + strip_tags_from(html@.skip(i + 1), false) =~= out@ + (seq![ch]
                    + strip_tags_from(html@.skip(i + 1), false)));
            }
            out.push(ch);
        }
        i += 1;
    }
    proof {
        assert(out@ + seq![] =~= out@);
    }
    let mut words: Vec<Vec<char>> = Vec::new();
    let mut cur: Vec<char> = Vec::new();
    let mut j: usize = 0;
    assert(out@.skip(0) =~= out@);
    while j < out.len()
        invariant
            j <= out.len(),
            views(words@) + words_from(out@.skip(j as int), cur@) == words_from(out@, seq![]),
        decreases out.len() - j,
    {
        let ch = out[j];
        proof {
            assert(out@.skip(j as int).drop_first() =~= out@.skip(j + 1));
            assert(out@.skip(j as int)[0] == ch);
        }
        if is_whitespace(ch) {
            if cur.len() > 0 {
                proof {
                    assert(views(words@.push(cur)) =~= views(words@) + seq![cur@]);
                    assert(views(words@) + seq![cur@] + words_from(out@.skip(j + 1), seq![])
                        =~= views(words@) + (seq![cur@] + words_from(out@.skip(j + 1), seq![])));
                }
                words.push(cur);
            } else {
                proof {
                    assert(seq![] + words_from(out@.skip(j + 1), seq![]) =~= words_from(
                        out@.skip(j + 1),
                        seq![],
                    ));
                }
            }
            cur = Vec::new();
            proof {
                assert(cur@ =~= Seq::<char>::empty());
            }
        } else {
            cur.push(ch);
        }
        j += 1;
    }
    if cur.len() > 0 {
        proof {
            assert(views(words@.push(cur)) =~= views(words@) + seq![cur@]);
        }
        words.push(cur);
    } else {
        proof {
            assert(views(words@) + seq![] =~= views(words@));
        }
    }
    let sp = [' '];
    proof {
        assert(sp@ =~= seq![' ']);
    }
    join_exec(&words, sp.as_slice())
}

/// Plain text of a Markdown fragment, from `html`, the fragment as rendered: tags dropped,
/// whitespace collapsed; empty for a blank fragment.
pub open spec fn plain_text(md: Seq<char>, html: Seq<char>) -> Seq<char> {
    if trim(md).len() == 0 {
        seq![]
    } else {
        collapse_ws(strip_tags_from(html, false))
    }
}

/// Plain text of a Markdown fragment from `rendered`, its HTML.
pub fn plain_text_of_rendered(markdown: &str, rendered: &str) -> (r: String)
    ensures
        r@ == plain_text(markdown@, rendered@),
{
    let md = chars_of(markdown);
    if is_blank_exec(md.as_slice()) {
        return String::new();
    }
    let h = chars_of(rendered);
    string_of(strip_html_tags_collapse_ws(h.as_slice()).as_slice())
}

/// Inline HTML for an article lede, from `html`, the trimmed summary as the Markdown renderer
/// gives it: unwrapped from its single paragraph; none when the summary or that HTML is empty.
pub open spec fn description_html(summary: Seq<char>, html: Seq<char>) -> Option<Seq<char>> {
    let t = trim(summary);
    if t.len() == 0 {
        None
    } else {
        let inner = unwrap_single_paragraph(html);
        if inner.len() == 0 {
            None
        } else {
            Some(inner)
        }
    }
}

/// The lede's inline HTML from `rendered`, the HTML of the trimmed summary.
pub fn description_html_of_rendered(summary_markdown: &str, rendered: &str) -> (r: Option<
    String,
>)
    ensures
        opt_str(r) == description_html(summary_markdown@, rendered@),
{
    let s = chars_of(summary_markdown);
    let t = trimmed(s.as_slice());
    if t.len() == 0 {
        return None;
    }
    let inner = unwrap_single_paragraph_html(rendered);
    if inner.as_str().is_empty() {
        None
    } else {
        Some(inner)
    }
}

/// Plain text suitable for `<meta name="description">` and Atom summaries: the fragment
/// rendered, tags dropped, whitespace collapsed; empty for a blank fragment.
pub fn markdown_fragment_to_plain_text(markdown: &str) -> (r: String)
    ensures
        r@ == plain_text(markdown@, comrak_html(markdown@, None)),
{
    let md = chars_of(markdown);
    if is_blank_exec(md.as_slice()) {
        return String::new();
    }
    let html = render_markdown_fragment_to_html(markdown);
    plain_text_of_rendered(markdown, html.as_str())
}

/// Inline HTML for an article lede: the trimmed summary rendered, unwrapped from its single
/// paragraph; none when the summary or that HTML is empty.
pub fn article_description_html_fragment(summary_markdown: &str) -> (r: Option<String>)
    ensures
        opt_str(r) == description_html(summary_markdown@, comrak_html(trim(summary_markdown@), None)),
{
    let s = chars_of(summary_markdown);
    let t = trimmed(s.as_slice());
    if t.len() == 0 {
        return None;
    }
    let ts = string_of(t.as_slice());
    let html = render_markdown_fragment_to_html(ts.as_str());
    description_html_of_rendered(summary_markdown, html.as_str())
}

/// Text fit for a one-line description: no `<`, no whitespace but single spaces between
/// words, none at either end.
pub open spec fn is_flat_text(t: Seq<char>) -> bool {
    &&& forall|i: int| 0 <= i < t.len() ==> #[trigger] t[i] != '<'
    &&& forall|i: int| 0 <= i < t.len() && is_ws(#[trigger] t[i]) ==> t[i] == ' '
    &&& forall|i: int| 0 <= i < t.len() - 1 ==> !(#[trigger] t[i] == ' ' && t[i + 1] == ' ')
    &&& t.len() > 0 ==> !is_ws(t[0]) && !is_ws(t[t.len() - 1])
}

/// A word of collapsed text: not empty, without whitespace or `<`.
pub open spec fn is_flat_word(w: Seq<char>) -> bool {
    &&& w.len() > 0
    &&& forall|i: int| 0 <= i < w.len() ==> !is_ws(#[trigger] w[i]) && w[i] != '<'
}

proof fn lemma_strip_tags_no_open(s: Seq<char>, in_tag: bool)
    ensures
        forall|i: int|
            0 <= i < strip_tags_from(s, in_tag).len() ==> #[trigger] strip_tags_from(s, in_tag)[i]
                != '<',
    decreases s.len(),
{
    if s.len() > 0 {
        let c = s[0];
        let rest = s.drop_first();
        lemma_strip_tags_no_open(rest, true);
        lemma_strip_tags_no_open(rest, false);
        if c == '<' {
            assert(strip_tags_from(s, in_tag) == strip_tags_from(rest, true));
        } else if c == '>' && in_tag {
            assert(strip_tags_from(s, in_tag) == strip_tags_from(rest, false));
        } else if !in_tag {
            let t = strip_tags_from(rest, false);
            assert(strip_tags_from(s, in_tag) == seq![c] + t);
            assert forall|i: int| 0 <= i < (seq![c] + t).len() implies #[trigger] (seq![c] + t)[i]
                != '<' by {
                if i > 0 {
                    assert((seq![c] + t)[i] == t[i - 1]);
                }
            }
        } else {
            assert(strip_tags_from(s, in_tag) == strip_tags_from(rest, true));
        }
    }
}

proof fn lemma_words_flat(s: Seq<char>, cur: Seq<char>)
    requires
        forall|i: int| 0 <= i < s.len() ==> #[trigger] s[i] != '<',
        forall|i: int| 0 <= i < cur.len() ==> !is_ws(#[trigger] cur[i]) && cur[i] != '<',
    ensures
        forall|k: int|
            0 <= k < words_from(s, cur).len() ==> is_flat_word(#[trigger] words_from(s, cur)[k]),
    decreases s.len(),
{
    if s.len() > 0 {
        let rest = s.drop_first();
        assert forall|i: int| 0 <= i < rest.len() implies #[trigger] rest[i] != '<' by {
            assert(rest[i] == s[i + 1]);
        }
        if is_ws(s[0]) {
            lemma_words_flat(rest, seq![]);
            let head: Seq<Seq<char>> = if cur.len() > 0 {
                seq![cur]
            } else {
                seq![]
            };
            let w = words_from(s, cur);
            assert(w == head + words_from(rest, seq![]));
            assert forall|k: int| 0 <= k < w.len() implies is_flat_word(#[trigger] w[k]) by {
                if k >= head.len() {
                    assert(w[k] == words_from(rest, seq![])[k - head.len()]);
                } else {
                    assert(w[k] == cur);
                }
            }
        } else {
            let c2 = cur.push(s[0]);
            assert forall|i: int| 0 <= i < c2.len() implies !is_ws(#[trigger] c2[i]) && c2[i]
                != '<' by {
                if i < cur.len() {
                    assert(c2[i] == cur[i]);
                }
            }
            lemma_words_flat(rest, c2);
            assert(words_from(s, cur) == words_from(rest, c2));
        }
    } else {
        if cur.len() > 0 {
            assert(words_from(s, cur) == seq![cur]);
            assert(words_from(s, cur)[0] == cur);
        } else {
            assert(words_from(s, cur) == Seq::<Seq<char>>::empty());
        }
    }
}

proof fn lemma_join_flat(ws: Seq<Seq<char>>)
    requires
        forall|k: int| 0 <= k < ws.len() ==> is_flat_word(#[trigger] ws[k]),
    ensures
        is_flat_text(join(ws, seq![' '])),
        ws.len() > 0 ==> join(ws, seq![' ']).len() > 0,
    decreases ws.len(),
{
    let sp = seq![' '];
    if ws.len() == 1 {
        let w = ws[0];
        assert(is_flat_word(w));
        assert(join(ws, sp) == w);
    } else if ws.len() > 1 {
        let init = ws.drop_last();
        assert forall|k: int| 0 <= k < init.len() implies is_flat_word(#[trigger] init[k]) by {
            assert(init[k] == ws[k]);
        }
        lemma_join_flat(init);
        let a = join(init, sp);
        let w = ws.last();
        assert(is_flat_word(w)) by {
            assert(w == ws[ws.len() - 1]);
        }
        let t = a + sp + w;
        assert(join(ws, sp) == t);
        let n = a.len();
        assert(is_ws(' ')) by {
            assert((' ' as u32) == 0x20);
        }
        assert forall|i: int| 0 <= i < t.len() implies #[trigger] t[i] != '<' by {
            if i < n {
                assert(t[i] == a[i]);
            } else if i > n {
                assert(t[i] == w[i - n - 1]);
            }
        }
        assert forall|i: int| 0 <= i < t.len() && is_ws(#[trigger] t[i]) implies t[i] == ' ' by {
            if i < n {
                assert(t[i] == a[i]);
            } else if i > n {
                assert(t[i] == w[i - n - 1]);
            }
        }
        assert forall|i: int| 0 <= i < t.len() - 1 implies !(#[trigger] t[i] == ' ' && t[i + 1]
            == ' ') by {
            if i < n - 1 {
                assert(t[i] == a[i] && t[i + 1] == a[i + 1]);
            } else if i == n - 1 {
                assert(t[i] == a[n - 1]);
            } else if i == n {
                assert(t[i + 1] == w[0]);
            } else {
                assert(t[i] == w[i - n - 1] && t[i + 1] == w[i - n]);
            }
        }
        assert(t[0] == a[0]);
        assert(t[t.len() - 1] == w[w.len() - 1]);
    }
}

/// The plain text of a Markdown fragment holds no tag opening, no line break, no whitespace
/// at either end and no two spaces in a row, whatever HTML the fragment rendered to; it is
/// empty for a blank fragment.
pub proof fn law_plain_text_is_flat(md: Seq<char>, html: Seq<char>)
    ensures
        is_flat_text(plain_text(md, html)),
        trim(md).len() == 0 ==> plain_text(md, html).len() == 0,
{
    if trim(md).len() != 0 {
        let stripped = strip_tags_from(html, false);
        lemma_strip_tags_no_open(html, false);
        lemma_words_flat(stripped, seq![]);
        lemma_join_flat(words_from(stripped, seq![]));
    }
}

} // verus!

