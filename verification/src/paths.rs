//! Source-relative paths, held as strings. What `std::path` computes of them is named by the
//! trusted items below; the blog logic is verified over those names.
use vstd::prelude::*;
use std::path::Path;

verus! {

/// `Path::parent` of a path, as text.
pub uninterp spec fn std_parent(p: Seq<char>) -> Option<Seq<char>>;

/// Text of the first item of `Path::components`.
pub uninterp spec fn std_first_component(p: Seq<char>) -> Option<Seq<char>>;

/// `Path::file_name` of a path, as text.
pub uninterp spec fn std_file_name(p: Seq<char>) -> Option<Seq<char>>;

/// Position of the last `c` in `s`, if any.
pub open spec fn last_index_of(s: Seq<char>, c: char) -> Option<int>
    decreases s.len(),
{
    if s.len() == 0 {
        None
    } else if s.last() == c {
        Some(s.len() - 1)
    } else {
        last_index_of(s.drop_last(), c)
    }
}

/// The stem of a file name, as `Path::file_stem` documents it: the whole name when it has no
/// `.` or only a leading one, else the part before the last `.`.
pub open spec fn name_stem(n: Seq<char>) -> Seq<char> {
    match last_index_of(n, '.') {
        Some(i) => if i == 0 {
            n
        } else {
            n.take(i)
        },
        None => n,
    }
}

/// The extension of a file name, as `Path::extension` documents it: none when the name has no
/// `.` or only a leading one, else the part after the last `.`.
pub open spec fn name_extension(n: Seq<char>) -> Option<Seq<char>> {
    match last_index_of(n, '.') {
        Some(i) => if i == 0 {
            None
        } else {
            Some(n.skip(i + 1))
        },
        None => None,
    }
}

/// `Path::file_stem` of a path, as text: the stem of its file name, if it has one.
pub open spec fn std_file_stem(p: Seq<char>) -> Option<Seq<char>> {
    match std_file_name(p) {
        Some(n) => Some(name_stem(n)),
        None => None,
    }
}

/// `Path::extension` of a path, as text: the extension of its file name, if any.
pub open spec fn std_extension(p: Seq<char>) -> Option<Seq<char>> {
    match std_file_name(p) {
        Some(n) => name_extension(n),
        None => None,
    }
}

/// `Path::with_extension` of a path, as text.
pub uninterp spec fn std_with_extension(p: Seq<char>, ext: Seq<char>) -> Seq<char>;

/// `Path::with_file_name` of a path, as text.
pub uninterp spec fn std_with_file_name(p: Seq<char>, name: Seq<char>) -> Seq<char>;

/// `PathBuf::push` of a name onto a path, as text.
pub uninterp spec fn std_join(base: Seq<char>, name: Seq<char>) -> Seq<char>;

/// Calls `PathBuf::push` of `name` onto `base`. The contract names the result.
#[verifier::external_body]
pub(crate) fn path_join(base: &str, name: &str) -> (r: String)
    ensures
        r@ == std_join(base@, name@),
{
    let mut p = std::path::PathBuf::from(base);
    p.push(name);
    p.to_string_lossy().into_owned()
}

/// Calls `Path::parent`; a parent of a UTF-8 path is UTF-8. The contract names the result.
#[verifier::external_body]
pub(crate) fn path_parent(p: &str) -> (r: Option<String>)
    ensures
        opt_text(r) == std_parent(p@),
{
    Path::new(p).parent().map(|q| q.to_string_lossy().into_owned())
}

/// Calls `Path::components` and takes the first component. The contract names the result.
#[verifier::external_body]
pub(crate) fn path_first_component(p: &str) -> (r: Option<String>)
    ensures
        opt_text(r) == std_first_component(p@),
{
    Path::new(p).components().next().map(|c| c.as_os_str().to_string_lossy().into_owned())
}

/// A single path component that names a file: not empty, no separator, not `.` or `..`.
pub open spec fn is_plain_name(n: Seq<char>) -> bool {
    &&& n.len() > 0
    &&& !n.contains('/')
    &&& n != seq!['.']
    &&& n != seq!['.', '.']
}

/// Calls `Path::file_name`. The contract names the result; std documents it as the path's final
/// component when that is a name (never `.` or `..`), so it holds no separator.
#[verifier::external_body]
pub(crate) fn path_file_name(p: &str) -> (r: Option<String>)
    ensures
        opt_text(r) == std_file_name(p@),
        r matches Some(n) ==> is_plain_name(n@),
{
    Path::new(p).file_name().map(|q| q.to_string_lossy().into_owned())
}

/// Calls `Path::file_stem`: the stem of the file name, as std documents it.
#[verifier::external_body]
pub(crate) fn path_file_stem(p: &str) -> (r: Option<String>)
    ensures
        opt_text(r) == std_file_stem(p@),
{
    Path::new(p).file_stem().map(|q| q.to_string_lossy().into_owned())
}

/// Calls `Path::extension`: the extension of the file name, as std documents it.
#[verifier::external_body]
pub(crate) fn path_extension(p: &str) -> (r: Option<String>)
    ensures
        opt_text(r) == std_extension(p@),
{
    Path::new(p).extension().map(|q| q.to_string_lossy().into_owned())
}

/// Calls `Path::with_extension`. The contract names the result. `with_extension` panics when
/// the extension holds a path separator, so such an extension is left out.
#[verifier::external_body]
pub(crate) fn path_with_extension(p: &str, ext: &str) -> (r: String)
    requires
        !ext@.contains('/'),
    ensures
        r@ == std_with_extension(p@, ext@),
{
    Path::new(p).with_extension(ext).to_string_lossy().into_owned()
}

/// Calls `Path::with_file_name`. The contract names the result; std documents (at
/// `PathBuf::set_file_name`) that when the path has a file name, the result has the given file
/// name and is a sibling of the path, with the same parent.
#[verifier::external_body]
pub(crate) fn path_with_file_name(p: &str, name: &str) -> (r: String)
    ensures
        std_file_name(p@) is Some && is_plain_name(name@) ==> std_file_name(r@) == Some(name@)
            && std_parent(r@) == std_parent(p@),
        r@ == std_with_file_name(p@, name@),
{
    Path::new(p).with_file_name(name).to_string_lossy().into_owned()
}

pub open spec fn opt_text(o: Option<String>) -> Option<Seq<char>> {
    match o {
        Some(s) => Some(s@),
        None => None,
    }
}

/// The path has the extension `md`.
pub open spec fn is_md(p: Seq<char>) -> bool {
    std_extension(p) == Some("md"@)
}

/// Whether the path has the extension `md`.
pub fn has_md_extension(p: &str) -> (r: bool)
    ensures
        r == is_md(p@),
{
    match path_extension(p) {
        Some(e) => e == String::from_str("md"),
        None => false,
    }
}

} // verus!
