//! User-facing profile metadata (e.g. for nav / social templates): which GitHub account a
//! repository belongs to, what its profile page's meta tags say, and how the responses of the
//! profile and avatar requests are judged. The requests themselves are made outside this
//! library.
use vstd::prelude::*;
use crate::repo_uri::{RepoUrl, RepoUriError, SchemeV, UrlScheme, utf8_text};
use crate::text::{
    ascii_lower, chars_of, eq_ignore_ascii_case, eq_ignore_ascii_case_exec, push_str, starts_with,
    string_of, trim, trim_matches, trim_matches_exec, trim_start_char, trimmed,
};
use vstd::utf8::{decode_utf8, valid_utf8};

verus! {

/// Pattern of the suffix GitHub adds to `og:description` on profile pages
/// (`… has N repositories available. Follow their code on GitHub.`).
pub const OG_DESCRIPTION_BOILERPLATE_SUFFIX: &'static str =
    "\\. [^.]+ has \\d+ repositories available\\. Follow their code on GitHub\\.$";

/// What `regex::Regex::new(pattern)` then `replace(text, rep)` gives: the text with the first
/// match replaced, or nothing when the pattern does not compile.
pub uninterp spec fn regex_replaced(pattern: Seq<char>, text: Seq<char>, rep: Seq<char>) -> Option<
    Seq<char>,
>;

/// Calls `regex::Regex::new` and `Regex::replace`. The contract names the result.
#[verifier::external_body]
fn regex_replace_first(pattern: &str, text: &str, rep: &str) -> (r: Option<String>)
    ensures
        r matches Some(s) ==> regex_replaced(pattern@, text@, rep@) == Some(s@),
        r is None ==> regex_replaced(pattern@, text@, rep@) is None,
{
    regex::Regex::new(pattern).ok().map(|re| re.replace(text, rep).into_owned())
}

/// The biography from the description and what the boilerplate pattern made of it: the
/// replaced text trimmed, or the description trimmed when the pattern gave nothing.
pub open spec fn bio_after_replace(raw: Seq<char>, replaced: Option<Seq<char>>) -> Seq<char> {
    match replaced {
        Some(s) => trim(s),
        None => trim(raw),
    }
}

/// The biography without GitHub's repository boilerplate, trimmed.
pub open spec fn og_stripped(raw: Seq<char>) -> Seq<char> {
    bio_after_replace(raw, regex_replaced(OG_DESCRIPTION_BOILERPLATE_SUFFIX@, raw, seq![]))
}

/// The biography from a description and the pattern's result on it (`None` when the pattern
/// did not compile): that result, else the description, trimmed.
pub fn bio_from_replaced(raw: &str, replaced: Option<String>) -> (r: String)
    ensures
        r@ == bio_after_replace(raw@, crate::paths::opt_text(replaced)),
{
    let v = match replaced {
        Some(s) => chars_of(s.as_str()),
        None => chars_of(raw),
    };
    let t = trimmed(v.as_slice());
    string_of(t.as_slice())
}

/// Removes the boilerplate suffix of [`OG_DESCRIPTION_BOILERPLATE_SUFFIX`] from
/// `og:description` when present, and trims the rest.
pub fn strip_github_profile_og_suffix(raw: &str) -> (r: String)
    ensures
        r@ == og_stripped(raw@),
{
    let empty = String::new();
    proof {
        assert(empty@ =~= Seq::<char>::empty());
    }
    let replaced = regex_replace_first(OG_DESCRIPTION_BOILERPLATE_SUFFIX, raw, empty.as_str());
    bio_from_replaced(raw, replaced)
}

/// Binary avatar payload plus HTTP `Content-Type` (typically `image/jpeg`, etc.).
#[derive(Debug, Clone, PartialEq, Eq)]
pub struct AvatarData {
    pub bytes: Vec<u8>,
    pub content_type: String,
}

/// Why a profile could not be read.
#[derive(Debug)]
pub enum UserProfileError {
    Http(String),
    HttpStatus(u16),
    MissingMeta(String),
    NonImageAvatar { content_type: String },
}

/// The message of a profile error.
pub open spec fn profile_error_message(e: UserProfileError) -> Seq<char> {
    match e {
        UserProfileError::Http(s) => "HTTP client error: "@ + s@,
        UserProfileError::HttpStatus(code) => "unexpected HTTP status "@ + decimal_digits(
            code as nat,
        ),
        UserProfileError::MissingMeta(name) => "missing required meta `"@ + name@ + "`"@,
        UserProfileError::NonImageAvatar { content_type } =>
            "avatar response is not an image (content-type: "@ + content_type@ + ")"@,
    }
}

impl UserProfileError {
    /// The message shown for the error.
    pub fn message(&self) -> (r: String)
        ensures
            r@ == profile_error_message(*self),
    {
        match self {
            UserProfileError::Http(e) => {
                let mut v = chars_of("HTTP client error: ");
                push_str(&mut v, e.as_str());
                string_of(v.as_slice())
            },
            UserProfileError::HttpStatus(code) => {
                let mut v = chars_of("unexpected HTTP status ");
                let d = decimal(*code as u64);
                crate::text::push_all(&mut v, d.as_slice());
                string_of(v.as_slice())
            },
            UserProfileError::MissingMeta(name) => {
                let mut v = chars_of("missing required meta `");
                push_str(&mut v, name.as_str());
                push_str(&mut v, "`");
                string_of(v.as_slice())
            },
            UserProfileError::NonImageAvatar { content_type } => {
                let mut v = chars_of("avatar response is not an image (content-type: ");
                push_str(&mut v, content_type.as_str());
                push_str(&mut v, ")");
                string_of(v.as_slice())
            },
        }
    }
}

/// Decimal digits of a number.
pub open spec fn decimal_digits(n: nat) -> Seq<char>
    decreases n,
{
    if n < 10 {
        seq![digit_char(n)]
    } else {
        decimal_digits(n / 10).push(digit_char(n % 10))
    }
}

pub open spec fn digit_char(d: nat) -> char {
    if d == 0 { '0' }
    else if d == 1 { '1' }
    else if d == 2 { '2' }
    else if d == 3 { '3' }
    else if d == 4 { '4' }
    else if d == 5 { '5' }
    else if d == 6 { '6' }
    else if d == 7 { '7' }
    else if d == 8 { '8' }
    else { '9' }
}

fn digit_exec(d: u64) -> (c: char)
    requires
        d < 10,
    ensures
        c == digit_char(d as nat),
{
    if d == 0 { '0' }
    else if d == 1 { '1' }
    else if d == 2 { '2' }
    else if d == 3 { '3' }
    else if d == 4 { '4' }
    else if d == 5 { '5' }
    else if d == 6 { '6' }
    else if d == 7 { '7' }
    else if d == 8 { '8' }
    else { '9' }
}

/// The decimal digits of a number, as `Display` of an integer writes them.
pub fn decimal(n: u64) -> (r: Vec<char>)
    ensures
        r@ == decimal_digits(n as nat),
    decreases n,
{
    if n < 10 {
        let mut v = Vec::new();
        v.push(digit_exec(n));
        proof {
            assert(v@ =~= seq![digit_char(n as nat)]);
        }
        v
    } else {
        let mut v = decimal(n / 10);
        v.push(digit_exec(n % 10));
        v
    }
}

/// Username and biography for templates.
#[derive(Debug, Clone, PartialEq, Eq)]
pub struct UserProfileMeta {
    pub username: String,
    pub bio: String,
}

/// Why the avatar could not be stored.
#[derive(Debug)]
pub enum UserProfileDownloadError {
    Profile(UserProfileError),
    Io(String),
}

/// The message of a download error: that of the profile error, or the I/O error's text.
pub open spec fn download_error_message(e: UserProfileDownloadError) -> Seq<char> {
    match e {
        UserProfileDownloadError::Profile(p) => profile_error_message(p),
        UserProfileDownloadError::Io(s) => s@,
    }
}

impl UserProfileDownloadError {
    /// The message shown for the error.
    pub fn message(&self) -> (r: String)
        ensures
            r@ == download_error_message(*self),
    {
        match self {
            UserProfileDownloadError::Profile(e) => e.message(),
            UserProfileDownloadError::Io(e) => {
                let v = chars_of(e.as_str());
                string_of(v.as_slice())
            },
        }
    }
}

/// A source of profile data: username, biography and avatar.
pub trait UserProfile {
    fn get_username(&self) -> Result<String, UserProfileError>;

    fn get_about(&self) -> Result<String, UserProfileError>;

    fn fetch_avatar(&self) -> Result<AvatarData, UserProfileError>;
}

/// A GitHub profile, known by its slug (`HenriTEL` in `/HenriTEL`).
#[derive(Debug, Clone)]
pub struct GithubUserProfile {
    pub user_name: String,
}

impl GithubUserProfile {
    /// The profile of a user name.
    pub fn new(user_name: String) -> (r: Self)
        ensures
            r.user_name@ == user_name@,
    {
        GithubUserProfile { user_name }
    }

    /// `https://github.com/` followed by the user name without leading slashes.
    pub fn profile_url(&self) -> (r: String)
        ensures
            r@ == "https://github.com/"@ + trim_start_char(self.user_name@, '/'),
    {
        let mut v = chars_of("https://github.com/");
        let name = crate::push::normalize_remote_entry_path(self.user_name.as_str());
        push_str(&mut v, name.as_str());
        string_of(v.as_slice())
    }
}

/// An element of the profile page as the HTML parser built it: its local name and its
/// attributes (local name, value), in order.
#[derive(Debug, Clone)]
pub struct MetaElement {
    pub name: String,
    pub attrs: Vec<(String, String)>,
}

pub open spec fn attr_views(a: Seq<(String, String)>) -> Seq<(Seq<char>, Seq<char>)> {
    Seq::new(a.len(), |i: int| (a[i].0@, a[i].1@))
}

/// The value of the last attribute of that name.
pub open spec fn last_attr(a: Seq<(Seq<char>, Seq<char>)>, key: Seq<char>) -> Option<Seq<char>>
    decreases a.len(),
{
    if a.len() == 0 {
        None
    } else if a.last().0 == key {
        Some(a.last().1)
    } else {
        last_attr(a.drop_last(), key)
    }
}

/// Username, image and description metas of the profile page: for each `meta` element with a
/// `property` and a non-empty `content`, `profile:username`, `og:image` and `og:description`
/// take that content; a later element wins.
pub open spec fn github_metas_of(es: Seq<MetaElement>) -> (
    Option<Seq<char>>,
    Option<Seq<char>>,
    Option<Seq<char>>,
)
    decreases es.len(),
{
    if es.len() == 0 {
        (None, None, None)
    } else {
        let prev = github_metas_of(es.drop_last());
        let e = es.last();
        if e.name@ != "meta"@ {
            prev
        } else {
            match (
                last_attr(attr_views(e.attrs@), "property"@),
                last_attr(attr_views(e.attrs@), "content"@),
            ) {
                (Some(p), Some(c)) => if c.len() == 0 {
                    prev
                } else if p == "profile:username"@ {
                    (Some(c), prev.1, prev.2)
                } else if p == "og:image"@ {
                    (prev.0, Some(c), prev.2)
                } else if p == "og:description"@ {
                    (prev.0, prev.1, Some(c))
                } else {
                    prev
                },
                _ => prev,
            }
        }
    }
}

fn last_attr_exec(attrs: &Vec<(String, String)>, key: &str) -> (r: Option<String>)
    ensures
        match r {
            Some(v) => last_attr(attr_views(attrs@), key@) == Some(v@),
            None => last_attr(attr_views(attrs@), key@) is None,
        },
{
    let mut i = attrs.len();
    let ghost av = attr_views(attrs@);
    proof {
        assert(av.subrange(0, av.len() as int) =~= av);
    }
    while i > 0
        invariant
            i <= attrs.len(),
            av == attr_views(attrs@),
            last_attr(av.subrange(0, i as int), key@) == last_attr(av, key@),
        decreases i,
    {
        proof {
            let s = av.subrange(0, i as int);
            assert(s.drop_last() =~= av.subrange(0, i - 1));
            assert(s.last() == av[i - 1]);
        }
        if str_eq(attrs[i - 1].0.as_str(), key) {
            let v = chars_of(attrs[i - 1].1.as_str());
            return Some(string_of(v.as_slice()));
        }
        i -= 1;
    }
    None
}

fn str_eq(a: &str, b: &str) -> (r: bool)
    ensures
        r == (a@ == b@),
{
    let av = chars_of(a);
    let bv = chars_of(b);
    crate::text::eq_chars(av.as_slice(), bv.as_slice())
}

pub open spec fn opt_view(o: Option<String>) -> Option<Seq<char>> {
    match o {
        Some(s) => Some(s@),
        None => None,
    }
}

/// Username, image and description metas of a profile page's elements.
pub fn github_metas(elements: &Vec<MetaElement>) -> (r: (Option<String>, Option<String>, Option<String>))
    ensures
        (opt_view(r.0), opt_view(r.1), opt_view(r.2)) == github_metas_of(elements@),
{
    let mut username: Option<String> = None;
    let mut image: Option<String> = None;
    let mut description: Option<String> = None;
    let mut i: usize = 0;
    while i < elements.len()
        invariant
            i <= elements.len(),
            (opt_view(username), opt_view(image), opt_view(description)) == github_metas_of(
                elements@.take(i as int),
            ),
        decreases elements.len() - i,
    {
        proof {
            assert(elements@.take(i + 1).drop_last() =~= elements@.take(i as int));
            assert(elements@.take(i + 1).last() == elements@[i as int]);
        }
        let e = &elements[i];
        if str_eq(e.name.as_str(), "meta") {
            let prop = last_attr_exec(&e.attrs, "property");
            let content = last_attr_exec(&e.attrs, "content");
            match (prop, content) {
                (Some(p), Some(c)) => {
                    if c.as_str().is_empty() {
                    } else if str_eq(p.as_str(), "profile:username") {
                        username = Some(c);
                    } else if str_eq(p.as_str(), "og:image") {
                        image = Some(c);
                    } else if str_eq(p.as_str(), "og:description") {
                        description = Some(c);
                    }
                },
                _ => {},
            }
        }
        i += 1;
    }
    proof {
        assert(elements@.take(elements@.len() as int) =~= elements@);
    }
    (username, image, description)
}

/// The profile page answered: anything but `200 OK` is an error carrying the status.
pub fn check_http_status(status: u16) -> (r: Result<(), UserProfileError>)
    ensures
        r is Ok <==> status == 200,
        r matches Err(e) ==> e matches UserProfileError::HttpStatus(c) && c == status,
{
    if status == 200 {
        Ok(())
    } else {
        Err(UserProfileError::HttpStatus(status))
    }
}

/// The content type names an image: lowercased, it starts with `image/`.
pub open spec fn is_image_type(content_type: Seq<char>) -> bool {
    starts_with(Seq::new(content_type.len(), |i: int| ascii_lower(content_type[i])), "image/"@)
}

/// The avatar answered with an image: a status other than `200 OK` is an error carrying the
/// status; otherwise a content type that is not an image is an error carrying it.
pub fn check_avatar_response(status: u16, content_type: &str) -> (r: Result<(), UserProfileError>)
    ensures
        r is Ok <==> (status == 200 && is_image_type(content_type@)),
        status != 200 ==> (r matches Err(e) && e matches UserProfileError::HttpStatus(c)
            && c == status),
        status == 200 && !is_image_type(content_type@) ==> (r matches Err(e)
            && e matches UserProfileError::NonImageAvatar { content_type: t } && t@
            == content_type@),
{
    check_http_status(status)?;
    let v = chars_of(content_type);
    let mut lower: Vec<char> = Vec::new();
    let mut i: usize = 0;
    while i < v.len()
        invariant
            i <= v.len(),
            v@ == content_type@,
            lower@ == Seq::new(content_type@.len(), |k: int| ascii_lower(content_type@[k])).take(
                i as int,
            ),
        decreases v.len() - i,
    {
        let c = v[i];
        let l = if 'A' <= c && c <= 'Z' {
            ((c as u8) + 32) as char
        } else {
            c
        };
        lower.push(l);
        i += 1;
        proof {
            assert(lower@ =~= Seq::new(content_type@.len(), |k: int| ascii_lower(content_type@[k])).take(
                i as int,
            ));
        }
    }
    proof {
        assert(lower@ =~= Seq::new(content_type@.len(), |k: int| ascii_lower(content_type@[k])));
    }
    let prefix = chars_of("image/");
    if crate::text::starts_with_exec(lower.as_slice(), prefix.as_slice()) {
        Ok(())
    } else {
        let t = string_of(v.as_slice());
        Err(UserProfileError::NonImageAvatar { content_type: t })
    }
}

/// The biography: the description without GitHub's boilerplate, or empty without one.
pub fn bio_from_description(description: Option<String>) -> (r: String)
    ensures
        r@ == match description {
            Some(d) => og_stripped(d@),
            None => seq![],
        },
{
    match description {
        Some(d) => strip_github_profile_og_suffix(d.as_str()),
        None => String::new(),
    }
}

/// A required meta: its content, or an error naming it.
pub fn required_meta(value: Option<String>, name: &str) -> (r: Result<String, UserProfileError>)
    ensures
        value matches Some(v) ==> (r matches Ok(s) && s@ == v@),
        value is None ==> (r matches Err(e) && e matches UserProfileError::MissingMeta(n) && n@
            == name@),
{
    match value {
        Some(v) => Ok(v),
        None => {
            let n = chars_of(name);
            Err(UserProfileError::MissingMeta(string_of(n.as_slice())))
        },
    }
}

/// Why no profile could be had for a repository.
#[derive(Debug)]
pub enum UpdateProfileError {
    GitUrl(gix::Error),
    RepoUri(RepoUriError),
    RemoteLookup(String),
    UnsupportedRepositoryScheme(String),
    UnsupportedHost(String),
    NonUtf8RepoPath,
    MissingRepoOwner,
    Download(UserProfileDownloadError),
}

/// The host is GitHub: `github.com` or `www.github.com`, in any letter case.
pub open spec fn is_github_host(host: Seq<char>) -> bool {
    eq_ignore_ascii_case(host, "github.com"@) || eq_ignore_ascii_case(host, "www.github.com"@)
}

/// Whether the host is GitHub's.
pub fn is_github_dot_com_host(host: &str) -> (r: bool)
    ensures
        r == is_github_host(host@),
{
    eq_ignore_ascii_case_exec(host, "github.com") || eq_ignore_ascii_case_exec(
        host,
        "www.github.com",
    )
}

/// `s` without any number of trailing copies of `suffix` (`str::trim_end_matches`).
pub open spec fn trim_end_str(s: Seq<char>, suffix: Seq<char>) -> Seq<char>
    decreases s.len(),
{
    if suffix.len() > 0 && crate::text::ends_with(s, suffix) {
        trim_end_str(s.take(s.len() - suffix.len()), suffix)
    } else {
        s
    }
}

/// The text before the first `/` (all of it when there is none).
pub open spec fn first_segment(s: Seq<char>) -> Seq<char> {
    s.take(crate::text::index_of_char(s, '/') as int)
}

/// The owner named by a repository path: its first segment once whitespace and slashes are
/// trimmed, without trailing `.git`; none when that is empty.
pub open spec fn owner_of_path(path: Seq<char>) -> Option<Seq<char>> {
    let seg = first_segment(trim_matches(trim(path), '/'));
    let owner = trim_end_str(seg, ".git"@);
    if seg.len() == 0 || owner.len() == 0 {
        None
    } else {
        Some(owner)
    }
}

fn trim_end_git(s: &Vec<char>) -> (r: Vec<char>)
    ensures
        r@ == trim_end_str(s@, ".git"@),
{
    let suffix = chars_of(".git");
    let mut end = s.len();
    proof {
        reveal_strlit(".git");
        assert(s@.take(end as int) =~= s@);
    }
    while end >= 4 && crate::text::ends_with_exec(
        crate::text::slice_to_vec(s.as_slice(), 0, end).as_slice(),
        suffix.as_slice(),
    )
        invariant
            end <= s.len(),
            suffix@ == ".git"@,
            suffix@.len() == 4,
            trim_end_str(s@.take(end as int), ".git"@) == trim_end_str(s@, ".git"@),
        decreases end,
    {
        proof {
            assert(s@.take(end as int).take(end - 4) =~= s@.take(end - 4));
        }
        end -= 4;
    }
    proof {
        let t = s@.take(end as int);
        if end < 4 {
            assert(!crate::text::ends_with(t, ".git"@));
        }
    }
    crate::text::slice_to_vec(s.as_slice(), 0, end)
}

/// First segment of a git URL path (e.g. `owner/repo` → `owner`, `/owner/repo.git` → `owner`).
pub fn github_owner_from_git_path(path: &[u8]) -> (r: Result<String, UpdateProfileError>)
    ensures
        !valid_utf8(path@) ==> (r matches Err(e) && e is NonUtf8RepoPath),
        valid_utf8(path@) ==> match owner_of_path(decode_utf8(path@)) {
            Some(o) => r matches Ok(s) && s@ == o,
            None => r matches Err(e) && e is MissingRepoOwner,
        },
{
    let text = match utf8_text(path) {
        Some(t) => t,
        None => return Err(UpdateProfileError::NonUtf8RepoPath),
    };
    let v = chars_of(text.as_str());
    let t = trimmed(v.as_slice());
    let u = trim_matches_exec(t.as_slice(), '/');
    let k = crate::text::index_of_char_exec(u.as_slice(), '/');
    let seg = crate::text::slice_to_vec(u.as_slice(), 0, k);
    if seg.len() == 0 {
        return Err(UpdateProfileError::MissingRepoOwner);
    }
    let owner = trim_end_git(&seg);
    if owner.len() == 0 {
        return Err(UpdateProfileError::MissingRepoOwner);
    }
    Ok(string_of(owner.as_slice()))
}

/// The scheme's name, as `gix::url::Scheme::as_str` spells it.
pub open spec fn scheme_name(s: SchemeV) -> Seq<char> {
    match s {
        SchemeV::File => "file"@,
        SchemeV::Git => "git"@,
        SchemeV::Ssh => "ssh"@,
        SchemeV::Http => "http"@,
        SchemeV::Https => "https"@,
        SchemeV::Ext => "ext"@,
        SchemeV::Helper(n) => n,
        SchemeV::HelperUrl(n) => n,
    }
}

/// The name of a URL scheme.
pub fn scheme_name_of(s: &UrlScheme) -> (r: String)
    ensures
        r@ == scheme_name(s@),
{
    match s {
        UrlScheme::File => String::from_str("file"),
        UrlScheme::Git => String::from_str("git"),
        UrlScheme::Ssh => String::from_str("ssh"),
        UrlScheme::Http => String::from_str("http"),
        UrlScheme::Https => String::from_str("https"),
        UrlScheme::Ext => String::from_str("ext"),
        UrlScheme::Helper(n) => {
            let v = chars_of(n.as_str());
            string_of(v.as_slice())
        },
        UrlScheme::HelperUrl(n) => {
            let v = chars_of(n.as_str());
            string_of(v.as_slice())
        },
    }
}

/// Profiles are looked up for repositories reached over HTTP, HTTPS or SSH.
pub open spec fn is_profile_scheme(s: SchemeV) -> bool {
    s is Http || s is Https || s is Ssh
}

/// Whether profiles are looked up for repositories with this scheme.
pub fn supports_profile_scheme(s: &UrlScheme) -> (r: bool)
    ensures
        r == is_profile_scheme(s@),
{
    match s {
        UrlScheme::Http | UrlScheme::Https | UrlScheme::Ssh => true,
        _ => false,
    }
}

/// The GitHub account whose profile a repository URL leads to: the scheme must be HTTP, HTTPS
/// or SSH, the host GitHub's, and the path must name an owner.
pub fn github_owner_for_url(url: &RepoUrl) -> (r: Result<String, UpdateProfileError>)
    ensures
        !is_profile_scheme(url@.scheme) ==> (r matches Err(e)
            && e matches UpdateProfileError::UnsupportedRepositoryScheme(n) && n@ == scheme_name(
            url@.scheme,
        )),
        is_profile_scheme(url@.scheme) && !is_github_host(host_text(url@.host)) ==> (r matches Err(
            e,
        ) && e matches UpdateProfileError::UnsupportedHost(h) && h@ == host_text(url@.host)),
        is_profile_scheme(url@.scheme) && is_github_host(host_text(url@.host)) ==> (if !valid_utf8(
            url@.path,
        ) {
            r matches Err(e) && e is NonUtf8RepoPath
        } else {
            match owner_of_path(decode_utf8(url@.path)) {
                Some(o) => r matches Ok(s) && s@ == o,
                None => r matches Err(e) && e is MissingRepoOwner,
            }
        }),
{
    if !supports_profile_scheme(&url.scheme) {
        return Err(UpdateProfileError::UnsupportedRepositoryScheme(scheme_name_of(&url.scheme)));
    }
    let host = match &url.host {
        Some(h) => {
            let v = chars_of(h.as_str());
            string_of(v.as_slice())
        },
        None => String::new(),
    };
    if !is_github_dot_com_host(host.as_str()) {
        return Err(UpdateProfileError::UnsupportedHost(host));
    }
    github_owner_from_git_path(url.path.as_slice())
}

/// A URL's host, or nothing.
pub open spec fn host_text(h: Option<Seq<char>>) -> Seq<char> {
    match h {
        Some(t) => t,
        None => seq![],
    }
}


fn joined_text(a: &str, b: &str) -> (r: String)
    ensures
        r@ == a@ + b@,
{
    let mut v = chars_of(a);
    push_str(&mut v, b);
    string_of(v.as_slice())
}

/// `m` is the message of the error: for a URL the crate refused, the crate's own text after a
/// fixed prefix (what that text says is not stated).
pub open spec fn update_profile_message(e: UpdateProfileError, m: Seq<char>) -> bool {
    match e {
        UpdateProfileError::GitUrl(_) => starts_with(m, "invalid Git URL: "@),
        UpdateProfileError::RepoUri(r) => crate::repo_uri::repo_uri_message(r, m),
        UpdateProfileError::RemoteLookup(s) => m == "failed to read git remote: "@ + s@,
        UpdateProfileError::UnsupportedRepositoryScheme(s) => m == "repository scheme `"@ + s@
            + "` is not supported"@,
        UpdateProfileError::UnsupportedHost(h) => m == "unsupported host `"@ + h@
            + "` (only github.com profiles are implemented)"@,
        UpdateProfileError::NonUtf8RepoPath => m == "repository path is not valid UTF-8"@,
        UpdateProfileError::MissingRepoOwner => m
            == "could not derive a GitHub username or organization from the repository path"@,
        UpdateProfileError::Download(d) => m == download_error_message(d),
    }
}

impl UpdateProfileError {
    /// The message shown for the error.
    pub fn message(&self) -> (r: String)
        ensures
            update_profile_message(*self, r@),
    {
        match self {
            UpdateProfileError::GitUrl(e) => {
                let t = crate::repo_uri::gix_error_text(e);
                let r = joined_text("invalid Git URL: ", t.as_str());
                proof {
                    assert(r@.take("invalid Git URL: "@.len() as int) =~= "invalid Git URL: "@);
                }
                r
            },
            UpdateProfileError::RepoUri(e) => e.message(),
            UpdateProfileError::RemoteLookup(msg) => joined_text(
                "failed to read git remote: ",
                msg.as_str(),
            ),
            UpdateProfileError::UnsupportedRepositoryScheme(s) => {
                let t = joined_text("repository scheme `", s.as_str());
                joined_text(t.as_str(), "` is not supported")
            },
            UpdateProfileError::UnsupportedHost(h) => {
                let t = joined_text("unsupported host `", h.as_str());
                joined_text(t.as_str(), "` (only github.com profiles are implemented)")
            },
            UpdateProfileError::NonUtf8RepoPath => String::from_str(
                "repository path is not valid UTF-8",
            ),
            UpdateProfileError::MissingRepoOwner => String::from_str(
                "could not derive a GitHub username or organization from the repository path",
            ),
            UpdateProfileError::Download(e) => e.message(),
        }
    }
}

/// The remotes looked at, in order, for a repository's fetch URL: the branch's remote, the
/// default remote, then `origin`.
pub fn fetch_remote_candidates(branch_remote: Option<String>, default_remote: Option<String>) -> (r:
    Vec<String>)
    ensures
        r@.len() == (if branch_remote is Some { 1int } else { 0 }) + (if default_remote is Some {
            1int
        } else {
            0
        }) + 1,
        branch_remote matches Some(b) ==> r@[0]@ == b@,
        default_remote matches Some(d) ==> r@[r@.len() - 2]@ == d@,
        r@[r@.len() - 1]@ == "origin"@,
{
    let mut r: Vec<String> = Vec::new();
    if let Some(b) = branch_remote {
        r.push(b);
    }
    if let Some(d) = default_remote {
        r.push(d);
    }
    r.push(String::from_str("origin"));
    r
}

/// The user name of a local blog without a GitHub remote: the name of its folder, else `blog`.
pub fn fallback_username(folder: Option<String>) -> (r: String)
    ensures
        r@ == match folder {
            Some(f) => match crate::paths::std_file_name(f@) {
                Some(n) => n,
                None => "blog"@,
            },
            None => "blog"@,
        },
{
    match folder {
        Some(f) => match crate::paths::path_file_name(f.as_str()) {
            Some(n) => n,
            None => String::from_str("blog"),
        },
        None => String::from_str("blog"),
    }
}

} // verus!
