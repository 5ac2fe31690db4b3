//! Static blog generation from Markdown sources kept in git: post metadata, the post store that
//! follows renames and draft publication through git history, Atom feed and Gemini output.
pub mod assoc;
pub mod blog_post;
pub mod feed;
pub mod gemini;
pub mod git;
pub mod html;
pub mod markdown;
pub mod order;
pub mod paths;
pub mod push;
pub mod repo_uri;
pub mod site;
pub mod store_index;
pub mod text;
pub mod time;
pub mod user_profile;
pub mod xml;

use vstd::prelude::*;
use crate::text::{starts_with, chars_of, starts_with_exec, slice_to_vec};

verus! {

/// Gitignore-style patterns of sources that are never published.
pub open spec fn ignore_patterns() -> Seq<Seq<char>> {
    seq!["draft/"@, "LICENSE.md"@]
}

/// The patterns of sources that are never published: `draft/` and `LICENSE.md`.
pub fn ignore_files() -> (r: Vec<String>)
    ensures
        r@.len() == ignore_patterns().len(),
        forall|i: int| 0 <= i < r@.len() ==> #[trigger] r@[i]@ == ignore_patterns()[i],
{
    let mut r: Vec<String> = Vec::new();
    r.push(String::from_str("draft/"));
    r.push(String::from_str("LICENSE.md"));
    r
}

/// Whether `GitignoreBuilder::new(root)` with these lines, asked
/// `matched_path_or_any_parents(path, is_dir)`, reports the path as ignored.
pub uninterp spec fn gitignore_ignored(
    root: Seq<char>,
    patterns: Seq<Seq<char>>,
    path: Seq<char>,
    is_dir: bool,
) -> bool;

/// `matched_path_or_any_parents` panics on these paths under the root `/`: after a leading `./`,
/// they start with three slashes, so a root is left after stripping.
pub open spec fn ignore_check_panics(path: Seq<char>) -> bool {
    let q = if starts_with(path, "./"@) {
        path.skip(2)
    } else {
        path
    };
    starts_with(q, "///"@)
}

/// Calls the `ignore` crate: builds a gitignore matcher rooted at `/` from the lines and asks
/// `matched_path_or_any_parents(path, is_dir).is_ignore()`. The contract names the result; the
/// call is left out where the crate's source shows it panics (a root left after stripping), and
/// made only with the blog's own patterns, which parse.
#[verifier::external_body]
fn gitignore_matches(patterns: &Vec<String>, path: &str, is_dir: bool) -> (r: bool)
    requires
        !ignore_check_panics(path@),
        views_of(patterns@) == ignore_patterns(),
    ensures
        r == gitignore_ignored("/"@, views_of(patterns@), path@, is_dir),
{
    let mut builder = ignore::gitignore::GitignoreBuilder::new("/");
    for pattern in patterns {
        builder.add_line(None, pattern).expect("invalid ignore pattern");
    }
    let matcher = builder.build().expect("failed building ignore matcher");
    matcher.matched_path_or_any_parents(path, is_dir).is_ignore()
}

pub open spec fn views_of(v: Seq<String>) -> Seq<Seq<char>> {
    Seq::new(v.len(), |i: int| v[i]@)
}

/// The source path is never published: it matches `draft/` or `LICENSE.md`, itself or through
/// one of its parent folders.
pub open spec fn is_ignored(path: Seq<char>, is_dir: bool) -> bool {
    gitignore_ignored("/"@, ignore_patterns(), path, is_dir)
}

/// Whether the source path is left out of the published blog.
pub fn path_is_ignored(relative_path: &str, is_dir: bool) -> (r: bool)
    requires
        !ignore_check_panics(relative_path@),
    ensures
        r == is_ignored(relative_path@, is_dir),
{
    let patterns = ignore_files();
    proof {
        assert(views_of(patterns@) =~= ignore_patterns());
    }
    gitignore_matches(&patterns, relative_path, is_dir)
}

/// Whether the checker in [`path_is_ignored`] would panic on the path.
pub fn ignore_check_would_panic(path: &str) -> (r: bool)
    ensures
        r == ignore_check_panics(path@),
{
    let p = chars_of(path);
    let dot = chars_of("./");
    let slashes = chars_of("///");
    let q = if starts_with_exec(p.as_slice(), dot.as_slice()) {
        proof {
            reveal_strlit("./");
        }
        let q = slice_to_vec(p.as_slice(), 2, p.len());
        assert(q@ =~= p@.skip(2));
        q
    } else {
        p
    };
    starts_with_exec(q.as_slice(), slashes.as_slice())
}

} // verus!
