//! Repository locations: telling remote URLs from local paths, reading git URLs through
//! `gix-url`, and the filesystem path of a `file://` URL.
use vstd::prelude::*;
use vstd::utf8::{decode_utf8, encode_utf8, valid_utf8};
use crate::text::{starts_with, chars_of, starts_with_exec, string_of};
use gix::url::Scheme as S;

verus! {

#[verifier::external_type_specification]
#[verifier::external_body]
pub struct ExGixError(gix::Error);

/// The scheme of a git URL, as `gix::url::Scheme` has it.
#[derive(Debug, Clone)]
pub enum UrlScheme {
    File,
    Git,
    Ssh,
    Http,
    Https,
    Ext,
    Helper(String),
    HelperUrl(String),
}

/// Mathematical content of a [`UrlScheme`].
pub enum SchemeV {
    File,
    Git,
    Ssh,
    Http,
    Https,
    Ext,
    Helper(Seq<char>),
    HelperUrl(Seq<char>),
}

impl View for UrlScheme {
    type V = SchemeV;

    open spec fn view(&self) -> SchemeV {
        match self {
            UrlScheme::File => SchemeV::File,
            UrlScheme::Git => SchemeV::Git,
            UrlScheme::Ssh => SchemeV::Ssh,
            UrlScheme::Http => SchemeV::Http,
            UrlScheme::Https => SchemeV::Https,
            UrlScheme::Ext => SchemeV::Ext,
            UrlScheme::Helper(n) => SchemeV::Helper(n@),
            UrlScheme::HelperUrl(n) => SchemeV::HelperUrl(n@),
        }
    }
}

/// The parts of a git URL that the blog reads: scheme, host and path.
#[derive(Debug, Clone)]
pub struct RepoUrl {
    pub scheme: UrlScheme,
    pub host: Option<String>,
    pub path: Vec<u8>,
}

/// Mathematical content of a [`RepoUrl`].
pub struct RepoUrlV {
    pub scheme: SchemeV,
    pub host: Option<Seq<char>>,
    pub path: Seq<u8>,
}

impl View for RepoUrl {
    type V = RepoUrlV;

    open spec fn view(&self) -> RepoUrlV {
        RepoUrlV {
            scheme: self.scheme@,
            host: match self.host {
                Some(h) => Some(h@),
                None => None,
            },
            path: self.path@,
        }
    }
}

/// What `gix::Url::from_bytes` gives for the bytes: the URL's scheme, host and path, or
/// nothing when it refuses them.
pub uninterp spec fn url_parsed(input: Seq<u8>) -> Option<RepoUrlV>;

/// Calls `gix::Url::from_bytes`. The contract names the result: on success the scheme, host and
/// path of the parsed URL; otherwise the crate's error.
#[verifier::external_body]
fn gix_url_from_bytes(input: &[u8]) -> (r: Result<RepoUrl, gix::Error>)
    ensures
        r matches Ok(u) ==> url_parsed(input@) == Some(u@),
        r is Err ==> url_parsed(input@) is None,
{
    gix::Url::from_bytes(input.into()).map(|u| RepoUrl {
        scheme: match u.scheme {
            S::File => UrlScheme::File, S::Git => UrlScheme::Git, S::Ssh => UrlScheme::Ssh,
            S::Http => UrlScheme::Http, S::Https => UrlScheme::Https, S::Ext => UrlScheme::Ext,
            S::Helper(n) => UrlScheme::Helper(n), S::HelperUrl(n) => UrlScheme::HelperUrl(n),
        },
        host: u.host,
        path: u.path.to_vec(),
    })
}

/// Calls `Display` of `gix::Error`; nothing is stated of the text.
#[verifier::external_body]
pub(crate) fn gix_error_text(e: &gix::Error) -> String {
    e.to_string()
}

/// Calls `std::str::from_utf8`: the text of the bytes exactly when they are valid UTF-8.
#[verifier::external_body]
pub(crate) fn utf8_text(bytes: &[u8]) -> (r: Option<String>)
    ensures
        r is Some <==> valid_utf8(bytes@),
        r matches Some(s) ==> s@ == decode_utf8(bytes@),
{
    std::str::from_utf8(bytes).ok().map(|s| s.to_string())
}

/// Error while normalizing a repository path or URL.
#[derive(Debug)]
pub enum RepoUriError {
    Parse(gix::Error),
    Io(String),
    NotFileScheme,
}

/// `m` is the message of the error: for a parse error, the crate's own text after a fixed
/// prefix (what that text says is not stated).
pub open spec fn repo_uri_message(e: RepoUriError, m: Seq<char>) -> bool {
    match e {
        RepoUriError::Parse(_) => starts_with(m, "invalid repository URI: "@),
        RepoUriError::Io(s) => m == "repository path: "@ + s@,
        RepoUriError::NotFileScheme => m == "expected a file:// repository URL"@,
    }
}

impl RepoUriError {
    /// The message shown for the error.
    pub fn message(&self) -> (r: String)
        ensures
            repo_uri_message(*self, r@),
    {
        match self {
            RepoUriError::Parse(e) => {
                let mut v = chars_of("invalid repository URI: ");
                let ghost prefix = v@;
                let t = gix_error_text(e);
                crate::text::push_str(&mut v, t.as_str());
                proof {
                    assert(v@.take(prefix.len() as int) =~= prefix);
                }
                string_of(v.as_slice())
            },
            RepoUriError::Io(e) => {
                let mut v = chars_of("repository path: ");
                crate::text::push_str(&mut v, e.as_str());
                string_of(v.as_slice())
            },
            RepoUriError::NotFileScheme => String::from_str("expected a file:// repository URL"),
        }
    }
}

/// The argument names a remote repository: it starts with `http://`, `https://`, `ssh://`,
/// `git://` or `git@`.
pub open spec fn is_remote_repo(repo: Seq<char>) -> bool {
    ||| starts_with(repo, "http://"@)
    ||| starts_with(repo, "https://"@)
    ||| starts_with(repo, "ssh://"@)
    ||| starts_with(repo, "git://"@)
    ||| starts_with(repo, "git@"@)
}

/// Whether the repository argument names a remote repository.
pub fn has_remote_scheme_prefix(repo: &str) -> (r: bool)
    ensures
        r == is_remote_repo(repo@),
{
    let r = chars_of(repo);
    let p0 = chars_of("http://");
    let p1 = chars_of("https://");
    let p2 = chars_of("ssh://");
    let p3 = chars_of("git://");
    let p4 = chars_of("git@");
    starts_with_exec(r.as_slice(), p0.as_slice()) || starts_with_exec(r.as_slice(), p1.as_slice())
        || starts_with_exec(r.as_slice(), p2.as_slice()) || starts_with_exec(
        r.as_slice(),
        p3.as_slice(),
    ) || starts_with_exec(r.as_slice(), p4.as_slice())
}

/// Reads a git URL; the crate's error when it refuses the text.
pub fn parse_git_url(input: &str) -> (r: Result<RepoUrl, RepoUriError>)
    ensures
        r matches Ok(u) ==> url_parsed(encode_utf8(input@)) == Some(u@),
        r matches Err(e) ==> e is Parse && url_parsed(encode_utf8(input@)) is None,
{
    match gix_url_from_bytes(input.as_bytes()) {
        Ok(u) => Ok(u),
        Err(e) => Err(RepoUriError::Parse(e)),
    }
}

/// The `file://` URL of an absolute path.
pub fn file_url_for_path(abs_path: &str) -> (r: String)
    ensures
        r@ == "file://"@ + abs_path@,
{
    let mut v = chars_of("file://");
    crate::text::push_str(&mut v, abs_path);
    string_of(v.as_slice())
}

/// Filesystem path of a `file://` URL: its path, which must be UTF-8.
pub fn file_url_to_path(url: &RepoUrl) -> (r: Result<String, RepoUriError>)
    ensures
        !(url@.scheme is File) ==> (r matches Err(e) && e is NotFileScheme),
        url@.scheme is File && !valid_utf8(url@.path) ==> (r matches Err(e) && e is Io),
        url@.scheme is File && valid_utf8(url@.path) ==> (r matches Ok(p) && p@ == decode_utf8(
            url@.path,
        )),
{
    match url.scheme {
        UrlScheme::File => {},
        _ => return Err(RepoUriError::NotFileScheme),
    }
    match utf8_text(url.path.as_slice()) {
        Some(p) => Ok(p),
        None => Err(RepoUriError::Io(String::from_str("file URL path is not valid UTF-8"))),
    }
}

/// A `file://` URL whose path holds the UTF-8 bytes of a text gives that text back as its
/// filesystem path: the path of such a URL is always valid UTF-8 and decodes to the text.
pub proof fn law_file_url_path_roundtrip(url: RepoUrlV, p: Seq<char>)
    requires
        url.scheme is File,
        url.path == encode_utf8(p),
    ensures
        valid_utf8(url.path),
        decode_utf8(url.path) == p,
{
    vstd::utf8::encode_utf8_valid_utf8(p);
    vstd::utf8::encode_utf8_decode_utf8(p);
}

} // verus!

