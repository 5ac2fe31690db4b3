//! Publishing a built blog to storage: which remote files to delete, and how local and remote
//! paths are spelled. The transfers themselves go through `opendal`, outside this library.
use vstd::prelude::*;
use crate::order::{sorted_unique, strictly_sorted};
use crate::text::{
    chars_of, eq_ignore_ascii_case, eq_ignore_ascii_case_exec, replace_char, replace_char_exec,
    string_of, trim, trim_matches, lemma_push_contains, trim_matches_exec, trim_start_char, trimmed,
};
use crate::views_of;

verus! {

/// How many files a push uploaded and deleted.
#[derive(Debug, Clone, Copy, PartialEq, Eq, Structural)]
pub struct PushSummary {
    pub uploaded_files: usize,
    pub deleted_files: usize,
}

/// Remote files to delete: when `delete_extras` is set, the remote paths that are not local,
/// each once, in sorted order; otherwise none.
pub fn compute_deletions(
    local_paths: &Vec<String>,
    remote_paths: &Vec<String>,
    delete_extras: bool,
) -> (r: Vec<String>)
    ensures
        !delete_extras ==> r@.len() == 0,
        delete_extras ==> strictly_sorted(views_of(r@)),
        delete_extras ==> forall|s: Seq<char>|
            views_of(r@).contains(s) <==> (views_of(remote_paths@).contains(s)
                && !views_of(local_paths@).contains(s)),
{
    if !delete_extras {
        return Vec::new();
    }
    let mut extras: Vec<String> = Vec::new();
    let mut i: usize = 0;
    proof {
        assert(views_of(extras@) =~= Seq::<Seq<char>>::empty());
    }
    while i < remote_paths.len()
        invariant
            i <= remote_paths.len(),
            forall|s: Seq<char>|
                views_of(extras@).contains(s) <==> (views_of(remote_paths@).take(i as int).contains(
                    s,
                ) && !views_of(local_paths@).contains(s)),
        decreases remote_paths.len() - i,
    {
        let p = &remote_paths[i];
        let mut local = false;
        let mut j: usize = 0;
        while j < local_paths.len()
            invariant
                j <= local_paths.len(),
                local == views_of(local_paths@).take(j as int).contains(p@),
            decreases local_paths.len() - j,
        {
            proof {
                assert(views_of(local_paths@).take(j + 1) =~= views_of(local_paths@).take(
                    j as int,
                ).push(local_paths@[j as int]@));
            }
            if local_paths[j] == *p {
                local = true;
            }
            proof {
                lemma_push_contains(
                    views_of(local_paths@).take(j as int),
                    local_paths@[j as int]@,
                    p@,
                );
            }
            j += 1;
        }
        proof {
            assert(views_of(local_paths@).take(local_paths@.len() as int) =~= views_of(
                local_paths@,
            ));
        }
        let ghost before = views_of(extras@);
        if !local {
            extras.push(p.clone());
        }
        proof {
            let t = views_of(remote_paths@).take(i + 1);
            assert(t =~= views_of(remote_paths@).take(i as int).push(p@));
            if !local {
                assert(views_of(extras@) =~= before.push(p@));
            } else {
                assert(views_of(extras@) =~= before);
            }
            assert forall|s: Seq<char>|
                views_of(extras@).contains(s) <==> (t.contains(s) && !views_of(
                    local_paths@,
                ).contains(s)) by {
                lemma_push_contains(views_of(remote_paths@).take(i as int), p@, s);
                lemma_push_contains(before, p@, s);
            }
        }
        i += 1;
    }
    proof {
        assert(views_of(remote_paths@).take(remote_paths@.len() as int) =~= views_of(
            remote_paths@,
        ));
    }
    sorted_unique(&extras)
}

/// A local relative path as a remote key: backslashes become slashes.
pub fn to_remote_path(path: &str) -> (r: String)
    ensures
        r@ == replace_char(path@, '\\', '/'),
{
    replace_char_exec(path, '\\', '/')
}

/// A path listed by the remote store, without its leading slashes.
pub fn normalize_remote_entry_path(path: &str) -> (r: String)
    ensures
        r@ == trim_start_char(path@, '/'),
{
    let v = chars_of(path);
    let mut a: usize = 0;
    proof {
        assert(v@.skip(0) =~= v@);
    }
    while a < v.len() && v[a] == '/'
        invariant
            a <= v.len(),
            v@ == path@,
            trim_start_char(v@.skip(a as int), '/') == trim_start_char(path@, '/'),
        decreases v.len() - a,
    {
        proof {
            assert(v@.skip(a as int).drop_first() =~= v@.skip(a + 1));
        }
        a += 1;
    }
    let rest = crate::text::slice_to_vec(v.as_slice(), a, v.len());
    proof {
        assert(rest@ =~= v@.skip(a as int));
    }
    string_of(rest.as_slice())
}

/// The key prefix for an FTP root: trimmed of whitespace and slashes, then ending in one slash;
/// empty for the server root.
pub open spec fn ftp_root_prefix(root: Seq<char>) -> Seq<char> {
    let t = trim_matches(trim(root), '/');
    if t.len() == 0 {
        seq![]
    } else {
        t.push('/')
    }
}

/// The key prefix for an FTP root: `" /blog/assets/ "` gives `"blog/assets/"`, `"/"` gives `""`.
pub fn normalize_ftp_root_prefix(root: &str) -> (r: String)
    ensures
        r@ == ftp_root_prefix(root@),
{
    let v = chars_of(root);
    let t = trimmed(v.as_slice());
    let mut u = trim_matches_exec(t.as_slice(), '/');
    if u.len() == 0 {
        String::new()
    } else {
        u.push('/');
        string_of(u.as_slice())
    }
}

/// The remote key of a local relative path: the key prefix, then the path.
pub fn remote_path(key_prefix: &str, relative_path: &str) -> (r: String)
    ensures
        r@ == key_prefix@ + relative_path@,
{
    let mut v = chars_of(key_prefix);
    crate::text::push_str(&mut v, relative_path);
    string_of(v.as_slice())
}

/// Where listing remote files starts: the key prefix, or the root when there is none.
pub fn list_base(key_prefix: &str) -> (r: String)
    ensures
        r@ == (if key_prefix@.len() == 0 {
            seq!['/']
        } else {
            key_prefix@
        }),
{
    if key_prefix.is_empty() {
        let mut s = String::new();
        s.push('/');
        proof {
            assert(s@ =~= seq!['/']);
        }
        s
    } else {
        let v = chars_of(key_prefix);
        string_of(v.as_slice())
    }
}

/// The storage scheme is FTP, in any letter case.
pub fn is_ftp_scheme(scheme: &str) -> (r: bool)
    ensures
        r == eq_ignore_ascii_case(scheme@, "ftp"@),
{
    eq_ignore_ascii_case_exec(scheme, "ftp")
}

/// The key prefix of a push target: for FTP, its root (the server root when none is given)
/// normalized by [`normalize_ftp_root_prefix`]; for other schemes none.
pub fn push_key_prefix(scheme: &str, ftp_root: Option<String>) -> (r: String)
    ensures
        r@ == (if eq_ignore_ascii_case(scheme@, "ftp"@) {
            match ftp_root {
                Some(root) => ftp_root_prefix(root@),
                None => ftp_root_prefix(seq!['/']),
            }
        } else {
            seq![]
        }),
{
    if is_ftp_scheme(scheme) {
        match ftp_root {
            Some(root) => normalize_ftp_root_prefix(root.as_str()),
            None => {
                let mut s = String::new();
                s.push('/');
                proof {
                    assert(s@ =~= seq!['/']);
                }
                normalize_ftp_root_prefix(s.as_str())
            },
        }
    } else {
        String::new()
    }
}

} // verus!
