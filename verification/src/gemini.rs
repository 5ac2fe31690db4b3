//! Conversion of Markdown sources to Gemini text (`text/gemini`).
use vstd::prelude::*;
use crate::text::{
    lemma_index_of_char,
    chars_of, copy_chars, first_occurrence_exec, first_occurrence_from, index_of_char,
    index_of_char_exec, lines, lines_of, push_all, slice_to_vec, starts_with,
    starts_with_exec, string_of, trim, trimmed, views, ends_with, ends_with_exec, push_str, occurs_at,
};

verus! {

/// `[label](url)` filling the whole line, as `(url, label)`; the label ends at the first `](`.
pub open spec fn standalone_link(line: Seq<char>) -> Option<(Seq<char>, Seq<char>)> {
    match first_occurrence_from(line, "]("@, 0) {
        None => None,
        Some(label_end) => if !starts_with(line, seq!['[']) || !ends_with(line, seq![')']) {
            None
        } else {
            let url = line.subrange(label_end + 2, line.len() - 1);
            if url.len() == 0 {
                None
            } else {
                Some((url, line.subrange(1, label_end)))
            }
        },
    }
}

fn parse_standalone_link(line: &[char]) -> (r: Option<(Vec<char>, Vec<char>)>)
    ensures
        match r {
            Some((u, l)) => standalone_link(line@) == Some((u@, l@)),
            None => standalone_link(line@) is None,
        },
{
    let pat = chars_of("](");
    let label_end = match first_occurrence_exec(line, pat.as_slice(), 0) {
        Some(i) => i,
        None => return None,
    };
    let open = ['['];
    let close = [')'];
    proof {
        assert(open@ =~= seq!['[']);
        assert(close@ =~= seq![')']);
        reveal_strlit("](");
    }
    if !starts_with_exec(line, open.as_slice()) || !ends_with_exec(line, close.as_slice()) {
        return None;
    }
    proof {
        assert(line@.subrange(label_end as int, label_end + 2) == pat@);
        assert(pat@.len() == 2);
        assert(pat@[0] == ']' && pat@[1] == '(');
        assert(line@.subrange(label_end as int, label_end + 2)[0] == line@[label_end as int]);
        assert(line@.subrange(label_end as int, label_end + 2)[1] == line@[label_end + 1]);
        assert(line@[label_end as int] == ']');
        assert(line@[label_end + 1] == '(');
        assert(line@.take(1)[0] == '[');
        assert(line@.skip(line@.len() - 1)[0] == ')');
        assert(line@[line@.len() - 1] == ')');
        assert(label_end + 2 <= line@.len() - 1);
    }
    let url_stop = line.len() - 1;
    let url_start = label_end + 2;
    let url = slice_to_vec(line, url_start, url_stop);
    if url.len() == 0 {
        return None;
    }
    let label = slice_to_vec(line, 1, label_end);
    Some((url, label))
}

/// The text after a `- `, `* ` or `+ ` list marker.
pub open spec fn unordered_item(line: Seq<char>) -> Option<Seq<char>> {
    if starts_with(line, seq!['-', ' ']) || starts_with(line, seq!['*', ' ']) || starts_with(
        line,
        seq!['+', ' '],
    ) {
        Some(line.skip(2))
    } else {
        None
    }
}

fn parse_unordered_list_item(line: &[char]) -> (r: Option<Vec<char>>)
    ensures
        opt_chars(r) == unordered_item(line@),
{
    if line.len() >= 2 && (line[0] == '-' || line[0] == '*' || line[0] == '+') && line[1] == ' ' {
        proof {
            assert(line@.take(2) =~= seq![line@[0], ' ']);
        }
        Some(slice_to_vec(line, 2, line.len()))
    } else {
        proof {
            if line@.len() >= 2 {
                assert(line@.take(2)[0] == line@[0]);
                assert(line@.take(2)[1] == line@[1]);
            }
        }
        None
    }
}

pub open spec fn opt_chars(o: Option<Vec<char>>) -> Option<Seq<char>> {
    match o {
        Some(v) => Some(v@),
        None => None,
    }
}

pub open spec fn is_ascii_digit(c: char) -> bool {
    '0' <= c <= '9'
}

/// Number of leading ASCII digits.
pub open spec fn leading_digits(s: Seq<char>) -> nat
    decreases s.len(),
{
    if s.len() > 0 && is_ascii_digit(s[0]) {
        1 + leading_digits(s.drop_first())
    } else {
        0
    }
}

/// The text after an ordered list marker (`12. `).
pub open spec fn ordered_item(line: Seq<char>) -> Option<Seq<char>> {
    let n = leading_digits(line);
    if n == 0 {
        None
    } else if starts_with(line.skip(n as int), seq!['.', ' ']) {
        Some(line.skip(n as int).skip(2))
    } else {
        None
    }
}

proof fn lemma_leading_digits(s: Seq<char>, k: int)
    requires
        0 <= k <= s.len(),
        forall|j: int| 0 <= j < k ==> is_ascii_digit(#[trigger] s[j]),
        k < s.len() ==> !is_ascii_digit(s[k]),
    ensures
        leading_digits(s) == k,
    decreases k,
{
    if k > 0 {
        lemma_leading_digits(s.drop_first(), k - 1);
    }
}

fn parse_ordered_list_item(line: &[char]) -> (r: Option<Vec<char>>)
    ensures
        opt_chars(r) == ordered_item(line@),
{
    let mut n: usize = 0;
    while n < line.len() && '0' <= line[n] && line[n] <= '9'
        invariant
            n <= line.len(),
            forall|j: int| 0 <= j < n ==> is_ascii_digit(#[trigger] line@[j]),
        decreases line.len() - n,
    {
        n += 1;
    }
    proof {
        lemma_leading_digits(line@, n as int);
    }
    if n == 0 {
        return None;
    }
    let suffix = slice_to_vec(line, n, line.len());
    let dot = ['.', ' '];
    proof {
        assert(dot@ =~= seq!['.', ' ']);
        assert(suffix@ =~= line@.skip(n as int));
    }
    if starts_with_exec(suffix.as_slice(), dot.as_slice()) {
        let t = slice_to_vec(suffix.as_slice(), 2, suffix.len());
        assert(t@ =~= suffix@.skip(2));
        Some(t)
    } else {
        None
    }
}

/// Inline `[label](url)` links rewritten as `label (url)` (just `label` for an empty url),
/// scanning from position `idx`.
pub open spec fn replace_links_from(s: Seq<char>, idx: int) -> Seq<char>
    decreases s.len() - idx,
{
    if idx < 0 || idx >= s.len() {
        seq![]
    } else {
        let rem = s.skip(idx);
        let open = index_of_char(rem, '[');
        if open >= rem.len() {
            rem
        } else {
            let open_idx = idx + open;
            let close_rel = index_of_char(s.skip(open_idx + 1), ']');
            if close_rel >= s.skip(open_idx + 1).len() {
                rem
            } else {
                let close_idx = open_idx + 1 + close_rel;
                let after = s.skip(close_idx + 1);
                if !starts_with(after, seq!['(']) {
                    s.subrange(idx, open_idx) + seq!['['] + replace_links_from(s, open_idx + 1)
                } else {
                    let paren_rel = index_of_char(after, ')');
                    if paren_rel >= after.len() {
                        rem
                    } else {
                        let label = s.subrange(open_idx + 1, close_idx);
                        let url_end = close_idx + 1 + paren_rel;
                        let url = s.subrange(close_idx + 2, url_end);
                        let piece = if url.len() > 0 {
                            label + seq![' ', '('] + url + seq![')']
                        } else {
                            label
                        };
                        s.subrange(idx, open_idx) + piece + replace_links_from(s, url_end + 1)
                    }
                }
            }
        }
    }
}

pub proof fn lemma_index_of_char_bound(s: Seq<char>, c: char)
    ensures
        index_of_char(s, c) <= s.len(),
        index_of_char(s, c) < s.len() ==> s[index_of_char(s, c) as int] == c,
    decreases s.len(),
{
    if s.len() > 0 && s[0] != c {
        lemma_index_of_char_bound(s.drop_first(), c);
    }
}

/// One step of the link rewriting: the output for the text from `idx` up to `next`.
#[verifier::rlimit(40)]
fn replace_links_step(line: &[char], idx: usize) -> (r: (Vec<char>, usize))
    requires
        idx < line.len(),
    ensures
        idx < r.1 <= line.len(),
        r.0@ + replace_links_from(line@, r.1 as int) == replace_links_from(line@, idx as int),
{
    let ghost s = line@;
    let rem = slice_to_vec(line, idx, line.len());
    assert(rem@ =~= s.skip(idx as int));
    let open = index_of_char_exec(rem.as_slice(), '[');
    proof {
        assert(replace_links_from(s, line.len() as int) == Seq::<char>::empty());
        assert(rem@ + Seq::<char>::empty() =~= rem@);
    }
    if open >= rem.len() {
        return (rem, line.len());
    }
    let open_idx = idx + open;
    let after_open = slice_to_vec(line, open_idx + 1, line.len());
    assert(after_open@ =~= s.skip(open_idx + 1));
    let close_rel = index_of_char_exec(after_open.as_slice(), ']');
    proof {
        lemma_index_of_char_bound(after_open@, ']');
    }
    if close_rel >= after_open.len() {
        return (rem, line.len());
    }
    let close_idx = open_idx + 1 + close_rel;
    let after = slice_to_vec(line, close_idx + 1, line.len());
    assert(after@ =~= s.skip(close_idx + 1));
    let lp = ['('];
    proof {
        assert(lp@ =~= seq!['(']);
    }
    let mut out = slice_to_vec(line, idx, open_idx);
    if !starts_with_exec(after.as_slice(), lp.as_slice()) {
        out.push('[');
        proof {
            assert(out@ + replace_links_from(s, open_idx + 1) =~= s.subrange(
                idx as int,
                open_idx as int,
            ) + seq!['['] + replace_links_from(s, open_idx + 1));
        }
        return (out, open_idx + 1);
    }
    let paren_rel = index_of_char_exec(after.as_slice(), ')');
    proof {
        lemma_index_of_char_bound(after@, ')');
    }
    if paren_rel >= after.len() {
        return (rem, line.len());
    }
    let url_end = close_idx + 1 + paren_rel;
    let label = slice_to_vec(line, open_idx + 1, close_idx);
    proof {
        assert(after@.take(1)[0] == '(');
        assert(s[close_idx + 1] == '(');
    }
    let url = slice_to_vec(line, close_idx + 2, url_end);
    let ghost prefix = out@;
    push_all(&mut out, label.as_slice());
    if url.len() > 0 {
        out.push(' ');
        out.push('(');
        push_all(&mut out, url.as_slice());
        out.push(')');
    }
    proof {
        let piece = if url@.len() > 0 {
            label@ + seq![' ', '('] + url@ + seq![')']
        } else {
            label@
        };
        assert(out@ =~= prefix + piece);
        assert(out@ + replace_links_from(s, url_end + 1) =~= s.subrange(idx as int, open_idx as int)
            + piece + replace_links_from(s, url_end + 1));
    }
    (out, url_end + 1)
}

fn replace_inline_markdown_links(line: &[char]) -> (r: Vec<char>)
    ensures
        r@ == replace_links_from(line@, 0),
{
    let mut out: Vec<char> = Vec::new();
    let mut idx: usize = 0;
    while idx < line.len()
        invariant
            idx <= line.len(),
            out@ + replace_links_from(line@, idx as int) == replace_links_from(line@, 0),
        decreases line.len() - idx,
    {
        let (piece, next) = replace_links_step(line, idx);
        let ghost before = out@;
        push_all(&mut out, piece.as_slice());
        proof {
            assert(out@ + replace_links_from(line@, next as int) =~= before + (piece@
                + replace_links_from(line@, next as int)));
        }
        idx = next;
    }
    proof {
        assert(replace_links_from(line@, idx as int) == Seq::<char>::empty());
        assert(out@ + Seq::<char>::empty() =~= out@);
    }
    out
}


/// Gemini rendering of one Markdown line outside code blocks, with its newline.
pub open spec fn gem_line(line: Seq<char>) -> Seq<char> {
    let t = trim(line);
    let nl = seq!['\n'];
    if t.len() == 0 {
        nl
    } else if standalone_link(t) is Some {
        let (url, label) = standalone_link(t)->0;
        "=> "@ + url + (if label.len() > 0 {
            seq![' '] + label
        } else {
            seq![]
        }) + nl
    } else if starts_with(t, "# "@) || starts_with(t, "## "@) || starts_with(t, "### "@) {
        t + nl
    } else if starts_with(t, "#### "@) {
        "### "@ + t.skip("#### "@.len() as int) + nl
    } else if starts_with(t, "##### "@) {
        "### "@ + t.skip("##### "@.len() as int) + nl
    } else if starts_with(t, "###### "@) {
        "### "@ + t.skip("###### "@.len() as int) + nl
    } else if starts_with(t, "> "@) {
        "> "@ + replace_links_from(t.skip("> "@.len() as int), 0) + nl
    } else if unordered_item(t) is Some {
        "* "@ + replace_links_from(unordered_item(t)->0, 0) + nl
    } else if ordered_item(t) is Some {
        "* "@ + replace_links_from(ordered_item(t)->0, 0) + nl
    } else {
        replace_links_from(t, 0) + nl
    }
}

/// Gemini text for lines `i..`: a line opening or closing a code fence becomes a bare fence,
/// lines inside fences are kept as they are, other lines go through [`gem_line`].
pub open spec fn gemtext_from(ls: Seq<Seq<char>>, i: int, in_code: bool) -> Seq<char>
    decreases ls.len() - i,
{
    if i < 0 || i >= ls.len() {
        seq![]
    } else if starts_with(trim(ls[i]), "```"@) {
        "```"@ + seq!['\n'] + gemtext_from(ls, i + 1, !in_code)
    } else if in_code {
        ls[i] + seq!['\n'] + gemtext_from(ls, i + 1, in_code)
    } else {
        gem_line(ls[i]) + gemtext_from(ls, i + 1, in_code)
    }
}

/// Gemini text for a Markdown text.
pub open spec fn gemtext(md: Seq<char>) -> Seq<char> {
    gemtext_from(lines(md), 0, false)
}

fn gem_line_exec(line: &[char]) -> (r: Vec<char>)
    ensures
        r@ == gem_line(line@),
{
    let t = trimmed(line);
    let mut out: Vec<char> = Vec::new();
    if t.len() == 0 {
        out.push('\n');
        return out;
    }
    match parse_standalone_link(t.as_slice()) {
        Some((url, label)) => {
            push_str(&mut out, "=> ");
            push_all(&mut out, url.as_slice());
            if label.len() > 0 {
                out.push(' ');
                push_all(&mut out, label.as_slice());
            }
            out.push('\n');
            proof {
                let ex = if label@.len() > 0 {
                    seq![' '] + label@
                } else {
                    seq![]
                };
                assert(out@ =~= "=> "@ + url@ + ex + seq!['\n']);
            }
            return out;
        },
        None => {},
    }
    let h1 = chars_of("# ");
    let h2 = chars_of("## ");
    let h3 = chars_of("### ");
    if starts_with_exec(t.as_slice(), h1.as_slice()) || starts_with_exec(t.as_slice(), h2.as_slice())
        || starts_with_exec(t.as_slice(), h3.as_slice()) {
        push_all(&mut out, t.as_slice());
        out.push('\n');
        return out;
    }
    let h4 = chars_of("#### ");
    let h5 = chars_of("##### ");
    let h6 = chars_of("###### ");
    let cut: Option<usize> = if starts_with_exec(t.as_slice(), h4.as_slice()) {
        Some(h4.len())
    } else if starts_with_exec(t.as_slice(), h5.as_slice()) {
        Some(h5.len())
    } else if starts_with_exec(t.as_slice(), h6.as_slice()) {
        Some(h6.len())
    } else {
        None
    };
    if let Some(c) = cut {
        let rest = slice_to_vec(t.as_slice(), c, t.len());
        push_all(&mut out, h3.as_slice());
        push_all(&mut out, rest.as_slice());
        out.push('\n');
        proof {
            assert(rest@ =~= t@.skip(c as int));
        }
        return out;
    }
    let q = chars_of("> ");
    let body = if starts_with_exec(t.as_slice(), q.as_slice()) {
        push_all(&mut out, q.as_slice());
        let rest = slice_to_vec(t.as_slice(), q.len(), t.len());
        assert(rest@ =~= t@.skip(q@.len() as int));
        rest
    } else {
        match parse_unordered_list_item(t.as_slice()) {
            Some(x) => {
                push_str(&mut out, "* ");
                x
            },
            None => match parse_ordered_list_item(t.as_slice()) {
                Some(x) => {
                    push_str(&mut out, "* ");
                    x
                },
                None => copy_chars(t.as_slice()),
            },
        }
    };
    let replaced = replace_inline_markdown_links(body.as_slice());
    push_all(&mut out, replaced.as_slice());
    out.push('\n');
    out
}

/// Converts Markdown to Gemini text: headings (levels four to six become level three), block
/// quotes, list items (`* `), standalone links (`=> url label`) and inline links
/// (`label (url)`); code fences are kept, their contents verbatim.
pub fn markdown_to_gemtext(markdown: &str) -> (r: String)
    ensures
        r@ == gemtext(markdown@),
{
    let md = chars_of(markdown);
    let ls = lines_of(md.as_slice());
    let ghost lv = views(ls@);
    let fence = chars_of("```");
    let mut output: Vec<char> = Vec::new();
    let mut in_code_block = false;
    let mut i: usize = 0;
    while i < ls.len()
        invariant
            i <= ls.len(),
            lv == views(ls@),
            lv == lines(markdown@),
            fence@ == "```"@,
            output@ + gemtext_from(lv, i as int, in_code_block) == gemtext_from(lv, 0, false),
        decreases ls.len() - i,
    {
        let line = ls[i].as_slice();
        let ghost before = output@;
        proof {
            assert(lv[i as int] == line@);
        }
        let t = trimmed(line);
        if starts_with_exec(t.as_slice(), fence.as_slice()) {
            push_all(&mut output, fence.as_slice());
            output.push('\n');
            in_code_block = !in_code_block;
        } else if in_code_block {
            push_all(&mut output, line);
            output.push('\n');
        } else {
            let g = gem_line_exec(line);
            push_all(&mut output, g.as_slice());
        }
        proof {
            assert(output@ + gemtext_from(lv, i + 1, in_code_block) =~= before + gemtext_from(
                lv,
                i as int,
                old_in_code(in_code_block, starts_with(trim(line@), "```"@)),
            ));
        }
        i += 1;
    }
    proof {
        assert(output@ + Seq::<char>::empty() =~= output@);
    }
    string_of(output.as_slice())
}

spec fn old_in_code(now: bool, fence: bool) -> bool {
    if fence {
        !now
    } else {
        now
    }
}

/// A Gemini page for a Markdown text: a `# ` title line and a blank line when the trimmed
/// title is not empty, then the converted text.
pub open spec fn gemtext_page(title: Seq<char>, md: Seq<char>) -> Seq<char> {
    (if trim(title).len() > 0 {
        "# "@ + trim(title) + seq!['\n', '\n']
    } else {
        seq![]
    }) + gemtext(md)
}

/// The Gemini page written beside a Markdown file: title line, then the converted Markdown.
pub fn markdown_file_gemtext(markdown: &str, title: &str) -> (r: String)
    ensures
        r@ == gemtext_page(title@, markdown@),
{
    let tc = chars_of(title);
    let tt = trimmed(tc.as_slice());
    let mut out: Vec<char> = Vec::new();
    if tt.len() > 0 {
        push_str(&mut out, "# ");
        push_all(&mut out, tt.as_slice());
        out.push('\n');
        out.push('\n');
    }
    let body = markdown_to_gemtext(markdown);
    let b = chars_of(body.as_str());
    let ghost head = out@;
    push_all(&mut out, b.as_slice());
    proof {
        if tt@.len() > 0 {
            assert(head =~= "# "@ + trim(title@) + seq!['\n', '\n']);
        } else {
            assert(head =~= Seq::<char>::empty());
        }
    }
    string_of(out.as_slice())
}


/// One line of the Gemini index: a link to the post's page, its title and its last update day.
pub open spec fn index_line(p: crate::blog_post::BlogPostV) -> Seq<char> {
    "=> /"@ + crate::paths::std_with_extension(p.path, "gmi"@) + " "@ + p.title + " ("@
        + crate::time::ymd_text(p.last_updated) + ")\n"@
}

pub open spec fn index_lines(s: Seq<crate::blog_post::BlogPostV>) -> Seq<char>
    decreases s.len(),
{
    if s.len() == 0 {
        seq![]
    } else {
        index_lines(s.drop_last()) + index_line(s.last())
    }
}

/// The Gemini index page: a `Blog` heading, then one line per post, the most recently updated
/// first.
pub open spec fn index_gemtext_of(posts: Seq<crate::blog_post::BlogPostV>) -> Seq<char> {
    "# Blog\n\n"@ + index_lines(crate::blog_post::newest_first(posts, false))
}

/// The Gemini index page of the posts.
pub fn index_gemtext(posts: &Vec<crate::blog_post::BlogPost>) -> (r: String)
    ensures
        r@ == index_gemtext_of(crate::blog_post::post_views(posts@)),
{
    let sorted = crate::blog_post::sort_newest_first(posts, false);
    let ghost sv = crate::blog_post::post_views(sorted@);
    let mut out = chars_of("# Blog\n\n");
    let ghost head = out@;
    let mut i: usize = 0;
    proof {
        assert(sv.take(0) =~= Seq::<crate::blog_post::BlogPostV>::empty());
        assert(out@ =~= head + index_lines(sv.take(0)));
    }
    while i < sorted.len()
        invariant
            i <= sorted.len(),
            sv == crate::blog_post::post_views(sorted@),
            out@ == head + index_lines(sv.take(i as int)),
        decreases sorted.len() - i,
    {
        let p = &sorted[i];
        proof {
            assert(sv.take(i + 1).drop_last() =~= sv.take(i as int));
            assert(sv.take(i + 1).last() == p@);
        }
        let ghost before = out@;
        push_str(&mut out, "=> /");
        proof {
            reveal_strlit("gmi");
        }
        let rel = crate::paths::path_with_extension(p.path.as_str(), "gmi");
        push_str(&mut out, rel.as_str());
        push_str(&mut out, " ");
        push_str(&mut out, p.title.as_str());
        push_str(&mut out, " (");
        let day = crate::time::format_ymd(&p.last_updated);
        push_str(&mut out, day.as_str());
        push_str(&mut out, ")\n");
        proof {
            assert(out@ =~= before + index_line(p@));
        }
        i += 1;
    }
    proof {
        assert(sv.take(sorted@.len() as int) =~= sv);
    }
    string_of(out.as_slice())
}

/// No line break in the text.
pub open spec fn nl_free(s: Seq<char>) -> bool {
    forall|i: int| 0 <= i < s.len() ==> #[trigger] s[i] != '\n'
}

/// Number of line breaks in the text.
pub open spec fn nl_count(s: Seq<char>) -> nat
    decreases s.len(),
{
    if s.len() == 0 {
        0
    } else {
        nl_count(s.drop_last()) + if s.last() == '\n' {
            1nat
        } else {
            0nat
        }
    }
}

proof fn lemma_nl_count_concat(a: Seq<char>, b: Seq<char>)
    ensures
        nl_count(a + b) == nl_count(a) + nl_count(b),
    decreases b.len(),
{
    if b.len() > 0 {
        lemma_nl_count_concat(a, b.drop_last());
        assert((a + b).drop_last() =~= a + b.drop_last());
    } else {
        assert(a + b =~= a);
    }
}

proof fn lemma_nl_free_count(a: Seq<char>)
    requires
        nl_free(a),
    ensures
        nl_count(a) == 0,
    decreases a.len(),
{
    if a.len() > 0 {
        assert(a.last() == a[a.len() - 1]);
        lemma_nl_free_count(a.drop_last());
    }
}

proof fn lemma_nl_free_sub(s: Seq<char>, a: int, b: int)
    requires
        nl_free(s),
        0 <= a <= b <= s.len(),
    ensures
        nl_free(s.subrange(a, b)),
{
    assert forall|i: int| 0 <= i < s.subrange(a, b).len() implies #[trigger] s.subrange(a, b)[i]
        != '\n' by {
        assert(s.subrange(a, b)[i] == s[a + i]);
    }
}

proof fn lemma_nl_free_cat(a: Seq<char>, b: Seq<char>)
    requires
        nl_free(a),
        nl_free(b),
    ensures
        nl_free(a + b),
{
    assert forall|i: int| 0 <= i < (a + b).len() implies #[trigger] (a + b)[i] != '\n' by {
        if i >= a.len() {
            assert((a + b)[i] == b[i - a.len()]);
        }
    }
}

proof fn lemma_before_index(s: Seq<char>, c: char)
    ensures
        forall|j: int| 0 <= j < index_of_char(s, c) && j < s.len() ==> #[trigger] s[j] != c,
    decreases s.len(),
{
    if s.len() > 0 && s[0] != c {
        lemma_before_index(s.drop_first(), c);
        assert forall|j: int| 0 <= j < index_of_char(s, c) && j < s.len() implies #[trigger] s[j]
            != c by {
            if j > 0 {
                assert(s[j] == s.drop_first()[j - 1]);
            }
        }
    }
}

proof fn lemma_trim_nl_free(s: Seq<char>)
    requires
        nl_free(s),
    ensures
        nl_free(crate::text::trim_start(s)),
        nl_free(trim(s)),
    decreases s.len(),
{
    lemma_trim_start_nl_free(s);
    lemma_trim_end_nl_free(crate::text::trim_start(s));
}

proof fn lemma_trim_start_nl_free(s: Seq<char>)
    requires
        nl_free(s),
    ensures
        nl_free(crate::text::trim_start(s)),
    decreases s.len(),
{
    if s.len() > 0 && crate::text::is_ws(s[0]) {
        lemma_nl_free_sub(s, 1, s.len() as int);
        assert(s.drop_first() =~= s.subrange(1, s.len() as int));
        lemma_trim_start_nl_free(s.drop_first());
    }
}

proof fn lemma_trim_end_nl_free(s: Seq<char>)
    requires
        nl_free(s),
    ensures
        nl_free(crate::text::trim_end(s)),
    decreases s.len(),
{
    if s.len() > 0 && crate::text::is_ws(s.last()) {
        lemma_nl_free_sub(s, 0, s.len() - 1);
        assert(s.drop_last() =~= s.subrange(0, s.len() - 1));
        lemma_trim_end_nl_free(s.drop_last());
    }
}

proof fn lemma_replace_links_nl_free(s: Seq<char>, idx: int)
    requires
        nl_free(s),
    ensures
        nl_free(replace_links_from(s, idx)),
    decreases s.len() - idx,
{
    if 0 <= idx < s.len() {
        let rem = s.skip(idx);
        lemma_nl_free_sub(s, idx, s.len() as int);
        assert(rem =~= s.subrange(idx, s.len() as int));
        let open = index_of_char(rem, '[');
        lemma_index_of_char_bound(rem, '[');
        if open < rem.len() {
            let open_idx = idx + open;
            let close_rel = index_of_char(s.skip(open_idx + 1), ']');
            lemma_index_of_char_bound(s.skip(open_idx + 1), ']');
            if close_rel < s.skip(open_idx + 1).len() {
                let close_idx = open_idx + 1 + close_rel;
                let after = s.skip(close_idx + 1);
                lemma_nl_free_sub(s, idx, open_idx);
                if !starts_with(after, seq!['(']) {
                    lemma_replace_links_nl_free(s, open_idx + 1);
                    lemma_nl_free_cat(s.subrange(idx, open_idx), seq!['[']);
                    lemma_nl_free_cat(
                        s.subrange(idx, open_idx) + seq!['['],
                        replace_links_from(s, open_idx + 1),
                    );
                } else {
                    let paren_rel = index_of_char(after, ')');
                    lemma_index_of_char_bound(after, ')');
                    assert(after.take(1)[0] == after[0]);
                    assert(paren_rel >= 1);
                    if paren_rel < after.len() {
                        let label = s.subrange(open_idx + 1, close_idx);
                        let url_end = close_idx + 1 + paren_rel;
                        let url = s.subrange(close_idx + 2, url_end);
                        lemma_nl_free_sub(s, open_idx + 1, close_idx);
                        lemma_nl_free_sub(s, close_idx + 2, url_end);
                        let piece = if url.len() > 0 {
                            label + seq![' ', '('] + url + seq![')']
                        } else {
                            label
                        };
                        if url.len() > 0 {
                            lemma_nl_free_cat(label, seq![' ', '(']);
                            lemma_nl_free_cat(label + seq![' ', '('], url);
                            lemma_nl_free_cat(label + seq![' ', '('] + url, seq![')']);
                        }
                        lemma_replace_links_nl_free(s, url_end + 1);
                        lemma_nl_free_cat(s.subrange(idx, open_idx), piece);
                        lemma_nl_free_cat(
                            s.subrange(idx, open_idx) + piece,
                            replace_links_from(s, url_end + 1),
                        );
                    }
                }
            }
        }
    }
}

proof fn lemma_gem_line_one_break(line: Seq<char>)
    requires
        nl_free(line),
    ensures
        nl_count(gem_line(line)) == 1,
        gem_line(line).len() > 0,
        gem_line(line).last() == '\n',
{
    let t = trim(line);
    let nl = seq!['\n'];
    lemma_trim_nl_free(line);
    reveal_strlit("=> ");
    reveal_strlit("# ");
    reveal_strlit("## ");
    reveal_strlit("### ");
    reveal_strlit("#### ");
    reveal_strlit("##### ");
    reveal_strlit("###### ");
    reveal_strlit("> ");
    reveal_strlit("* ");
    let body: Seq<char> = if t.len() == 0 {
        seq![]
    } else if standalone_link(t) is Some {
        let (url, label) = standalone_link(t)->0;
        let lf = first_occurrence_from(t, "]("@, 0)->0;
        lemma_first_occurrence_found(t, "]("@, 0);
        reveal_strlit("](");
        assert(t.subrange(lf, lf + 2) == "]("@);
        assert(t[lf] == t.subrange(lf, lf + 2)[0]);
        assert(t[lf + 1] == t.subrange(lf, lf + 2)[1]);
        assert(t.take(1)[0] == t[0]);
        assert(t.skip(t.len() - 1)[0] == t[t.len() - 1]);
        assert(1 <= lf && lf + 2 <= t.len() - 1);
        assert(url == t.subrange(lf + 2, t.len() - 1));
        assert(label == t.subrange(1, lf));
        lemma_nl_free_sub(t, lf + 2, t.len() - 1);
        lemma_nl_free_sub(t, 1, lf);
        lemma_nl_free_cat("=> "@, url);
        if label.len() > 0 {
            lemma_nl_free_cat(seq![' '], label);
            lemma_nl_free_cat("=> "@ + url, seq![' '] + label);
        } else {
            assert("=> "@ + url + seq![] =~= "=> "@ + url);
        }
        "=> "@ + url + (if label.len() > 0 {
            seq![' '] + label
        } else {
            seq![]
        })
    } else if starts_with(t, "# "@) || starts_with(t, "## "@) || starts_with(t, "### "@) {
        t
    } else if starts_with(t, "#### "@) {
        lemma_nl_free_sub(t, 5, t.len() as int);
        assert(t.skip(5) =~= t.subrange(5, t.len() as int));
        lemma_nl_free_cat("### "@, t.skip(5));
        "### "@ + t.skip("#### "@.len() as int)
    } else if starts_with(t, "##### "@) {
        lemma_nl_free_sub(t, 6, t.len() as int);
        assert(t.skip(6) =~= t.subrange(6, t.len() as int));
        lemma_nl_free_cat("### "@, t.skip(6));
        "### "@ + t.skip("##### "@.len() as int)
    } else if starts_with(t, "###### "@) {
        lemma_nl_free_sub(t, 7, t.len() as int);
        assert(t.skip(7) =~= t.subrange(7, t.len() as int));
        lemma_nl_free_cat("### "@, t.skip(7));
        "### "@ + t.skip("###### "@.len() as int)
    } else if starts_with(t, "> "@) {
        lemma_nl_free_sub(t, 2, t.len() as int);
        assert(t.skip(2) =~= t.subrange(2, t.len() as int));
        lemma_replace_links_nl_free(t.skip(2), 0);
        lemma_nl_free_cat("> "@, replace_links_from(t.skip(2), 0));
        "> "@ + replace_links_from(t.skip("> "@.len() as int), 0)
    } else if unordered_item(t) is Some {
        lemma_nl_free_sub(t, 2, t.len() as int);
        assert(t.skip(2) =~= t.subrange(2, t.len() as int));
        lemma_replace_links_nl_free(t.skip(2), 0);
        lemma_nl_free_cat("* "@, replace_links_from(t.skip(2), 0));
        "* "@ + replace_links_from(unordered_item(t)->0, 0)
    } else if ordered_item(t) is Some {
        let n = leading_digits(t) as int;
        let it = ordered_item(t)->0;
        lemma_leading_digits_le(t);
        let u = t.skip(n);
        lemma_nl_free_sub(t, n, t.len() as int);
        assert(u =~= t.subrange(n, t.len() as int));
        lemma_nl_free_sub(u, 2, u.len() as int);
        assert(it =~= u.subrange(2, u.len() as int));
        lemma_replace_links_nl_free(it, 0);
        lemma_nl_free_cat("* "@, replace_links_from(it, 0));
        "* "@ + replace_links_from(ordered_item(t)->0, 0)
    } else {
        lemma_replace_links_nl_free(t, 0);
        replace_links_from(t, 0)
    };
    assert(gem_line(line) == body + nl);
    lemma_nl_free_count(body);
    lemma_nl_count_concat(body, nl);
    reveal_with_fuel(nl_count, 2);
    assert(nl.drop_last() =~= Seq::<char>::empty());
}

proof fn lemma_leading_digits_le(s: Seq<char>)
    ensures
        leading_digits(s) <= s.len(),
    decreases s.len(),
{
    if s.len() > 0 && is_ascii_digit(s[0]) {
        lemma_leading_digits_le(s.drop_first());
    }
}

proof fn lemma_first_occurrence_found(s: Seq<char>, p: Seq<char>, i: int)
    ensures
        first_occurrence_from(s, p, i) matches Some(k) ==> i <= k && occurs_at(s, p, k),
    decreases s.len() + 1 - i,
{
    if 0 <= i <= s.len() && !occurs_at(s, p, i) {
        lemma_first_occurrence_found(s, p, i + 1);
    }
}

proof fn lemma_lines_nl_free(s: Seq<char>)
    ensures
        forall|k: int| 0 <= k < lines(s).len() ==> nl_free(#[trigger] lines(s)[k]),
    decreases s.len(),
{
    if s.len() > 0 {
        let k = index_of_char(s, '\n');
        lemma_before_index(s, '\n');
        lemma_index_of_char_bound(s, '\n');
        if k >= s.len() {
            assert(lines(s) == seq![s]);
            assert(lines(s)[0] == s);
        } else {
            let head = crate::text::strip_cr(s.take(k as int));
            assert forall|j: int| 0 <= j < s.take(k as int).len() implies #[trigger] s.take(
                k as int,
            )[j] != '\n' by {
                assert(s.take(k as int)[j] == s[j]);
            }
            if s.take(k as int).len() > 0 && s.take(k as int).last() == '\r' {
                lemma_nl_free_sub(s.take(k as int), 0, k - 1);
                assert(head =~= s.take(k as int).subrange(0, k - 1));
            }
            lemma_lines_nl_free(s.skip((k + 1) as int));
            let rest = lines(s.skip((k + 1) as int));
            assert(lines(s) == seq![head] + rest);
            assert forall|j: int| 0 <= j < lines(s).len() implies nl_free(#[trigger] lines(s)[j]) by {
                if j > 0 {
                    assert(lines(s)[j] == rest[j - 1]);
                }
            }
        }
    }
}

proof fn lemma_gemtext_lines(ls: Seq<Seq<char>>, i: int, in_code: bool)
    requires
        0 <= i <= ls.len(),
        forall|k: int| 0 <= k < ls.len() ==> nl_free(#[trigger] ls[k]),
    ensures
        nl_count(gemtext_from(ls, i, in_code)) == ls.len() - i,
        gemtext_from(ls, i, in_code).len() > 0 ==> gemtext_from(ls, i, in_code).last() == '\n',
    decreases ls.len() - i,
{
    let nl = seq!['\n'];
    if i < ls.len() {
        let rest = gemtext_from(ls, i + 1, if starts_with(trim(ls[i]), "```"@) {
            !in_code
        } else {
            in_code
        });
        lemma_gemtext_lines(ls, i + 1, if starts_with(trim(ls[i]), "```"@) {
            !in_code
        } else {
            in_code
        });
        assert(nl_free(ls[i]));
        let piece: Seq<char> = if starts_with(trim(ls[i]), "```"@) {
            reveal_strlit("```");
            assert(nl_free("```"@));
            lemma_nl_free_cat("```"@, seq![]);
            "```"@ + nl
        } else if in_code {
            ls[i] + nl
        } else {
            gem_line(ls[i])
        };
        assert(gemtext_from(ls, i, in_code) == piece + rest);
        reveal_with_fuel(nl_count, 2);
        assert(nl.drop_last() =~= Seq::<char>::empty());
        if starts_with(trim(ls[i]), "```"@) {
            reveal_strlit("```");
            lemma_nl_free_count("```"@);
            lemma_nl_count_concat("```"@, nl);
        } else if in_code {
            lemma_nl_free_count(ls[i]);
            lemma_nl_count_concat(ls[i], nl);
        } else {
            lemma_gem_line_one_break(ls[i]);
        }
        lemma_nl_count_concat(piece, rest);
        if rest.len() == 0 {
            assert(piece + rest =~= piece);
        } else {
            assert((piece + rest).last() == rest.last());
        }
    }
}

proof fn lemma_first_char_differs(s: Seq<char>, p: Seq<char>)
    requires
        s.len() > 0,
        p.len() > 0,
        s[0] != p[0],
    ensures
        !starts_with(s, p),
{
    if p.len() <= s.len() {
        assert(s.take(p.len() as int)[0] == s[0]);
    }
}

/// A block quote stays a block quote: a Markdown line whose trimmed text starts with `> ` gives
/// the Gemini line `> ` followed by the rest of that text with its inline links rewritten; with
/// no `[` in it, the trimmed line itself. A Markdown text of just that line converts to that one
/// Gemini line.
pub proof fn law_quote_lines_stay_quotes(line: Seq<char>)
    requires
        starts_with(trim(line), "> "@),
    ensures
        gem_line(line) == "> "@ + replace_links_from(trim(line).skip(2), 0) + seq!['\n'],
        !trim(line).contains('[') ==> gem_line(line) == trim(line) + seq!['\n'],
        nl_free(line) ==> gemtext(line) == gem_line(line),
{
    let t = trim(line);
    reveal_strlit("> ");
    reveal_strlit("# ");
    reveal_strlit("## ");
    reveal_strlit("### ");
    reveal_strlit("#### ");
    reveal_strlit("##### ");
    reveal_strlit("###### ");
    reveal_strlit("```");
    assert(t.take(2) == "> "@);
    assert(t[0] == t.take(2)[0]);
    assert(t[0] == '>');
    assert(t.take(1)[0] == t[0]);
    assert(!starts_with(t, seq!['[']));
    assert(standalone_link(t) is None);
    lemma_first_char_differs(t, "# "@);
    lemma_first_char_differs(t, "## "@);
    lemma_first_char_differs(t, "### "@);
    lemma_first_char_differs(t, "#### "@);
    lemma_first_char_differs(t, "##### "@);
    lemma_first_char_differs(t, "###### "@);
    let rest = t.skip(2);
    if !t.contains('[') {
        lemma_index_of_char_bound(rest, '[');
        if index_of_char(rest, '[') < rest.len() {
            let k = index_of_char(rest, '[') as int;
            assert(t[k + 2] == rest[k]);
        }
        if rest.len() > 0 {
            assert(rest.skip(0) =~= rest);
        }
        assert(replace_links_from(rest, 0) == rest);
        assert("> "@ + rest =~= t);
    }
    if nl_free(line) {
        lemma_index_of_char(line, '\n', line.len() as int);
        assert(line.len() > 0) by {
            if line.len() == 0 {
                assert(line =~= Seq::<char>::empty());
                assert(crate::text::trim_start(line) == line);
                assert(crate::text::trim_end(line) == line);
            }
        }
        assert(lines(line) == seq![line]);
        lemma_first_char_differs(t, "```"@);
        assert(seq![line][0] == line);
        assert(gemtext_from(seq![line], 1, false) == Seq::<char>::empty());
        assert(gem_line(line) + Seq::<char>::empty() =~= gem_line(line));
    }
}

/// Every Markdown line gives exactly one Gemini line: the Gemini text has as many line breaks
/// as the Markdown text has lines, and ends with a line break unless it is empty.
pub proof fn law_gemtext_one_line_per_line(md: Seq<char>)
    ensures
        nl_count(gemtext(md)) == lines(md).len(),
        gemtext(md).len() > 0 ==> gemtext(md).last() == '\n',
{
    lemma_lines_nl_free(md);
    lemma_gemtext_lines(lines(md), 0, false);
}

} // verus!


