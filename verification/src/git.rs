//! Git history applied to the blog post store: created, deleted and modified sources of each
//! commit move posts along renames, set publication dates, and drop deleted posts.
use vstd::prelude::*;
use crate::blog_post::{
    BlogPost, BlogPostStore, BlogPostUpdate, BlogPostV, ObjectId, StoreV, UpdV, get_by_oid_spec,
    get_by_path_spec, no_update, published_of_draft, register_spec, remove_path_spec, set_pub_spec,
    transfer_spec, try_set_pub_spec, update_spec, is_draft, get_by_path, get_by_object_id,
    is_draft_md, published_path_from_draft, transfer_post_to_path, set_publication_date,
    remove_by_path, register_object_path, try_set_publication_date, update_by_object_id, upsert,
    all, all_spec, post_views, upsert_spec, opt_post, upsert_with_defaults, defaults_v,
    update_by_path, fallback_title_of, lemma_update_found, lemma_upsert_found,
    lemma_remove_path_gone, store_wf, live, either, relocated, publication_update, later,
    post_id_for_spec, applied, reindex_spec, merge_spec, section_of, lemma_reindex_wf,
    lookup, law_read_after_upsert,
};
use crate::paths::{has_md_extension, is_md, path_join, std_join};
use crate::time::{TimeV, Timestamp};
use crate::{ignore_check_panics, is_ignored, path_is_ignored};

verus! {

/// Whether and how a file changed relative to the base state.
#[derive(Debug, Clone, Copy, PartialEq, Eq, Structural)]
pub enum State {
    Created,
    Deleted,
    Modified,
}

/// One changed path of a commit: how it changed, and the blob it holds afterwards.
pub type DiffV = (Seq<char>, State, Option<ObjectId>);

pub open spec fn diff_view(d: Seq<(String, State, Option<ObjectId>)>) -> Seq<DiffV> {
    Seq::new(d.len(), |i: int| (d[i].0@, d[i].1, d[i].2))
}

/// Deleted paths, in diff order.
pub open spec fn deleted_of(d: Seq<DiffV>) -> Seq<Seq<char>>
    decreases d.len(),
{
    if d.len() == 0 {
        seq![]
    } else {
        let prev = deleted_of(d.drop_last());
        if d.last().1 == State::Deleted {
            prev.push(d.last().0)
        } else {
            prev
        }
    }
}

/// Created paths with their blob, in diff order.
pub open spec fn created_of(d: Seq<DiffV>) -> Seq<(Seq<char>, ObjectId)>
    decreases d.len(),
{
    if d.len() == 0 {
        seq![]
    } else {
        let prev = created_of(d.drop_last());
        if d.last().1 == State::Created && d.last().2 is Some {
            prev.push((d.last().0, d.last().2->0))
        } else {
            prev
        }
    }
}

/// Modified paths with their blob, in diff order.
pub open spec fn modified_of(d: Seq<DiffV>) -> Seq<(Seq<char>, ObjectId)>
    decreases d.len(),
{
    if d.len() == 0 {
        seq![]
    } else {
        let prev = modified_of(d.drop_last());
        if d.last().1 == State::Modified && d.last().2 is Some {
            prev.push((d.last().0, d.last().2->0))
        } else {
            prev
        }
    }
}

/// The store while a commit is applied, with the deleted and created paths already handled.
pub struct ApplyV {
    pub s: StoreV,
    pub hd: Seq<Seq<char>>,
    pub hc: Seq<Seq<char>>,
}

/// First created entry at path `p`.
pub open spec fn created_at(created: Seq<(Seq<char>, ObjectId)>, p: Seq<char>) -> Option<
    (Seq<char>, ObjectId),
>
    decreases created.len(),
{
    if created.len() == 0 {
        None
    } else if created[0].0 == p {
        Some(created[0])
    } else {
        created_at(created.drop_first(), p)
    }
}

/// A deleted draft whose published path was created: the post moves there and is published at
/// the commit time.
pub open spec fn draft_step(
    st: ApplyV,
    d: Seq<char>,
    created: Seq<(Seq<char>, ObjectId)>,
    dt: TimeV,
) -> ApplyV {
    if !is_draft(d) {
        st
    } else {
        match published_of_draft(d) {
            None => st,
            Some(pb) => match created_at(created, pb) {
                None => st,
                Some(c) => ApplyV {
                    s: set_pub_spec(transfer_spec(st.s, d, c.0, c.1, dt), c.0, dt),
                    hd: st.hd.push(d),
                    hc: st.hc.push(c.0),
                },
            },
        }
    }
}

pub open spec fn phase_drafts(
    st: ApplyV,
    deleted: Seq<Seq<char>>,
    created: Seq<(Seq<char>, ObjectId)>,
    dt: TimeV,
    n: int,
) -> ApplyV
    decreases n,
{
    if n <= 0 {
        st
    } else {
        draft_step(phase_drafts(st, deleted, created, dt, n - 1), deleted[n - 1], created, dt)
    }
}

/// First created entry not yet handled whose blob is `oid`.
pub open spec fn created_with_blob(
    created: Seq<(Seq<char>, ObjectId)>,
    hc: Seq<Seq<char>>,
    oid: Option<ObjectId>,
) -> Option<(Seq<char>, ObjectId)>
    decreases created.len(),
{
    if created.len() == 0 {
        None
    } else if !hc.contains(created[0].0) && oid == Some(created[0].1) {
        Some(created[0])
    } else {
        created_with_blob(created.drop_first(), hc, oid)
    }
}

/// A deleted tracked path whose blob reappears at a created path: the post moves there.
pub open spec fn rename_step(
    st: ApplyV,
    d: Seq<char>,
    created: Seq<(Seq<char>, ObjectId)>,
    dt: TimeV,
) -> ApplyV {
    if st.hd.contains(d) {
        st
    } else {
        match get_by_path_spec(st.s, d) {
            None => st,
            Some(post) => match created_with_blob(created, st.hc, post.object_id) {
                None => st,
                Some(c) => ApplyV {
                    s: transfer_spec(st.s, d, c.0, c.1, dt),
                    hd: st.hd.push(d),
                    hc: st.hc.push(c.0),
                },
            },
        }
    }
}

pub open spec fn phase_renames(
    st: ApplyV,
    deleted: Seq<Seq<char>>,
    created: Seq<(Seq<char>, ObjectId)>,
    dt: TimeV,
    n: int,
) -> ApplyV
    decreases n,
{
    if n <= 0 {
        st
    } else {
        rename_step(phase_renames(st, deleted, created, dt, n - 1), deleted[n - 1], created, dt)
    }
}

/// Deleted paths not yet handled that hold a tracked post.
pub open spec fn remaining_deleted(st: ApplyV, deleted: Seq<Seq<char>>) -> Seq<Seq<char>> {
    deleted.filter(|d: Seq<char>| !st.hd.contains(d) && get_by_path_spec(st.s, d) is Some)
}

/// Created entries not yet handled.
pub open spec fn remaining_created(st: ApplyV, created: Seq<(Seq<char>, ObjectId)>) -> Seq<
    (Seq<char>, ObjectId),
> {
    created.filter(|c: (Seq<char>, ObjectId)| !st.hc.contains(c.0))
}

/// When exactly one tracked deleted path and one created path are left, the post moves.
pub open spec fn pair_step(
    st: ApplyV,
    deleted: Seq<Seq<char>>,
    created: Seq<(Seq<char>, ObjectId)>,
    dt: TimeV,
) -> ApplyV {
    let rd = remaining_deleted(st, deleted);
    let rc = remaining_created(st, created);
    if rd.len() == 1 && rc.len() == 1 {
        ApplyV {
            s: transfer_spec(st.s, rd[0], rc[0].0, rc[0].1, dt),
            hd: st.hd.push(rd[0]),
            hc: st.hc.push(rc[0].0),
        }
    } else {
        st
    }
}

/// A deleted Markdown source not otherwise handled loses its post.
pub open spec fn delete_step(st: ApplyV, d: Seq<char>) -> ApplyV {
    if st.hd.contains(d) || is_ignored(d, false) || !is_md(d) {
        st
    } else if get_by_path_spec(st.s, d) is Some {
        ApplyV { s: remove_path_spec(st.s, d), ..st }
    } else {
        st
    }
}

pub open spec fn phase_deletes(st: ApplyV, deleted: Seq<Seq<char>>, n: int) -> ApplyV
    decreases n,
{
    if n <= 0 {
        st
    } else {
        delete_step(phase_deletes(st, deleted, n - 1), deleted[n - 1])
    }
}

/// Store after updating the post with a blob.
pub open spec fn update_oid_spec(s: StoreV, oid: ObjectId, u: UpdV) -> StoreV {
    if s.by_oid.contains_key(oid) {
        update_spec(s, s.by_oid[oid], u).0
    } else {
        s
    }
}

/// An update of path and last update time.
pub open spec fn move_update(p: Seq<char>, dt: TimeV) -> UpdV {
    UpdV { path: Some(p), last_updated: Some(dt), ..no_update() }
}

/// An update of the last update time.
pub open spec fn touch_update(dt: TimeV) -> UpdV {
    UpdV { last_updated: Some(dt), ..no_update() }
}

/// A created Markdown source not otherwise handled: a copy of a blob already tracked elsewhere
/// only publishes and touches that post; otherwise the blob is registered at the path, published
/// at the commit time when it was not yet, and touched.
pub open spec fn create_step(st: ApplyV, c: (Seq<char>, ObjectId), dt: TimeV) -> ApplyV {
    let (p, oid) = c;
    if st.hc.contains(p) || is_ignored(p, false) || !is_md(p) {
        st
    } else if get_by_oid_spec(st.s, oid) is Some && get_by_oid_spec(st.s, oid)->0.path != p {
        let existing = get_by_oid_spec(st.s, oid)->0;
        let s1 = try_set_pub_spec(st.s, existing.path, dt);
        let s2 = if dt.instant() > existing.last_updated.instant() {
            update_oid_spec(s1, oid, touch_update(dt))
        } else {
            s1
        };
        ApplyV { s: s2, ..st }
    } else {
        let s1 = register_spec(st.s, oid, p, dt).0;
        let s2 = try_set_pub_spec(s1, p, dt);
        ApplyV { s: update_oid_spec(s2, oid, move_update(p, dt)), ..st }
    }
}

pub open spec fn phase_creates(
    st: ApplyV,
    created: Seq<(Seq<char>, ObjectId)>,
    dt: TimeV,
    n: int,
) -> ApplyV
    decreases n,
{
    if n <= 0 {
        st
    } else {
        create_step(phase_creates(st, created, dt, n - 1), created[n - 1], dt)
    }
}

/// A modified Markdown source: its blob is registered at the path and touched.
pub open spec fn modify_step(st: ApplyV, c: (Seq<char>, ObjectId), dt: TimeV) -> ApplyV {
    let (p, oid) = c;
    if is_ignored(p, false) || !is_md(p) {
        st
    } else {
        let s1 = register_spec(st.s, oid, p, dt).0;
        ApplyV { s: update_oid_spec(s1, oid, move_update(p, dt)), ..st }
    }
}

pub open spec fn phase_modifies(
    st: ApplyV,
    modified: Seq<(Seq<char>, ObjectId)>,
    dt: TimeV,
    n: int,
) -> ApplyV
    decreases n,
{
    if n <= 0 {
        st
    } else {
        modify_step(phase_modifies(st, modified, dt, n - 1), modified[n - 1], dt)
    }
}

/// Store after one commit's diff, at commit time `dt`: draft publications, renames by blob, a
/// single remaining rename, deletions, creations and modifications, in that order.
pub open spec fn apply_diff_spec(s: StoreV, diff: Seq<DiffV>, dt: TimeV) -> StoreV {
    let deleted = deleted_of(diff);
    let created = created_of(diff);
    let modified = modified_of(diff);
    let st0 = ApplyV { s, hd: seq![], hc: seq![] };
    let st1 = phase_drafts(st0, deleted, created, dt, deleted.len() as int);
    let st2 = phase_renames(st1, deleted, created, dt, deleted.len() as int);
    let st3 = pair_step(st2, deleted, created, dt);
    let st4 = phase_deletes(st3, deleted, deleted.len() as int);
    let st5 = phase_creates(st4, created, dt, created.len() as int);
    phase_modifies(st5, modified, dt, modified.len() as int).s
}

/// No path of the diff makes the ignore check panic.
pub open spec fn diff_paths_checkable(diff: Seq<DiffV>) -> bool {
    forall|i: int| 0 <= i < diff.len() ==> !ignore_check_panics(#[trigger] diff[i].0)
}

pub open spec fn str_views(v: Seq<String>) -> Seq<Seq<char>> {
    Seq::new(v.len(), |i: int| v[i]@)
}

pub open spec fn pair_views(v: Seq<(String, ObjectId)>) -> Seq<(Seq<char>, ObjectId)> {
    Seq::new(v.len(), |i: int| (v[i].0@, v[i].1))
}

fn contains_path(v: &Vec<String>, p: &String) -> (r: bool)
    ensures
        r == str_views(v@).contains(p@),
{
    let mut i: usize = 0;
    while i < v.len()
        invariant
            i <= v.len(),
            forall|j: int| 0 <= j < i ==> str_views(v@)[j] != p@,
        decreases v.len() - i,
    {
        if v[i] == *p {
            proof {
                assert(str_views(v@)[i as int] == p@);
            }
            return true;
        }
        i += 1;
    }
    false
}

fn partition_diff(diff: &Vec<(String, State, Option<ObjectId>)>) -> (r: (
    Vec<String>,
    Vec<(String, ObjectId)>,
    Vec<(String, ObjectId)>,
))
    ensures
        str_views(r.0@) == deleted_of(diff_view(diff@)),
        pair_views(r.1@) == created_of(diff_view(diff@)),
        pair_views(r.2@) == modified_of(diff_view(diff@)),
{
    let mut deleted: Vec<String> = Vec::new();
    let mut created: Vec<(String, ObjectId)> = Vec::new();
    let mut modified: Vec<(String, ObjectId)> = Vec::new();
    let mut i: usize = 0;
    while i < diff.len()
        invariant
            i <= diff.len(),
            str_views(deleted@) == deleted_of(diff_view(diff@).take(i as int)),
            pair_views(created@) == created_of(diff_view(diff@).take(i as int)),
            pair_views(modified@) == modified_of(diff_view(diff@).take(i as int)),
        decreases diff.len() - i,
    {
        let ghost d = diff_view(diff@);
        proof {
            assert(d.take(i + 1).drop_last() =~= d.take(i as int));
            assert(d.take(i + 1).last() == d[i as int]);
        }
        let (p, st, o) = (&diff[i].0, diff[i].1, diff[i].2);
        match (st, o) {
            (State::Deleted, _) => {
                let c = p.clone();
                proof {
                    assert(str_views(deleted@.push(c)) =~= str_views(deleted@).push(c@));
                }
                deleted.push(c);
            },
            (State::Created, Some(oid)) => {
                let c = (p.clone(), oid);
                proof {
                    assert(pair_views(created@.push(c)) =~= pair_views(created@).push((c.0@, oid)));
                }
                created.push(c);
            },
            (State::Modified, Some(oid)) => {
                let c = (p.clone(), oid);
                proof {
                    assert(pair_views(modified@.push(c)) =~= pair_views(modified@).push(
                        (c.0@, oid),
                    ));
                }
                modified.push(c);
            },
            _ => {},
        }
        i += 1;
    }
    proof {
        assert(diff_view(diff@).take(diff@.len() as int) =~= diff_view(diff@));
    }
    (deleted, created, modified)
}


fn find_created_at(created: &Vec<(String, ObjectId)>, p: &String) -> (r: Option<usize>)
    ensures
        match r {
            Some(i) => i < created@.len() && created_at(pair_views(created@), p@) == Some(
                pair_views(created@)[i as int],
            ),
            None => created_at(pair_views(created@), p@) is None,
        },
{
    let ghost cv = pair_views(created@);
    let mut i: usize = 0;
    assert(cv.skip(0) =~= cv);
    while i < created.len()
        invariant
            i <= created.len(),
            cv == pair_views(created@),
            created_at(cv.skip(i as int), p@) == created_at(cv, p@),
        decreases created.len() - i,
    {
        proof {
            assert(cv.skip(i as int).drop_first() =~= cv.skip(i + 1));
            assert(cv.skip(i as int)[0] == cv[i as int]);
        }
        if created[i].0 == *p {
            return Some(i);
        }
        i += 1;
    }
    None
}

fn find_created_with_blob(
    created: &Vec<(String, ObjectId)>,
    hc: &Vec<String>,
    oid: Option<ObjectId>,
) -> (r: Option<usize>)
    ensures
        match r {
            Some(i) => i < created@.len() && created_with_blob(
                pair_views(created@),
                str_views(hc@),
                oid,
            ) == Some(pair_views(created@)[i as int]),
            None => created_with_blob(pair_views(created@), str_views(hc@), oid) is None,
        },
{
    let ghost cv = pair_views(created@);
    let mut i: usize = 0;
    assert(cv.skip(0) =~= cv);
    while i < created.len()
        invariant
            i <= created.len(),
            cv == pair_views(created@),
            created_with_blob(cv.skip(i as int), str_views(hc@), oid) == created_with_blob(
                cv,
                str_views(hc@),
                oid,
            ),
        decreases created.len() - i,
    {
        proof {
            assert(cv.skip(i as int).drop_first() =~= cv.skip(i + 1));
            assert(cv.skip(i as int)[0] == cv[i as int]);
        }
        if !contains_path(hc, &created[i].0) && oid == Some(created[i].1) {
            return Some(i);
        }
        i += 1;
    }
    None
}

fn push_path(v: &mut Vec<String>, p: &String)
    ensures
        str_views(final(v)@) == str_views(old(v)@).push(p@),
{
    let c = p.clone();
    proof {
        assert(str_views(v@.push(c)) =~= str_views(v@).push(c@));
    }
    v.push(c);
}

fn draft_phase(
    store: &mut BlogPostStore,
    deleted: &Vec<String>,
    created: &Vec<(String, ObjectId)>,
    dt: Timestamp,
    hd: &mut Vec<String>,
    hc: &mut Vec<String>,
)
    ensures
        ({
            let st = phase_drafts(
                ApplyV { s: old(store)@, hd: str_views(old(hd)@), hc: str_views(old(hc)@) },
                str_views(deleted@),
                pair_views(created@),
                dt@,
                deleted@.len() as int,
            );
            final(store)@ == st.s && str_views(final(hd)@) == st.hd && str_views(final(hc)@)
                == st.hc
        }),
{
    let ghost st0 = ApplyV { s: store@, hd: str_views(hd@), hc: str_views(hc@) };
    let ghost dv = str_views(deleted@);
    let ghost cv = pair_views(created@);
    let mut i: usize = 0;
    while i < deleted.len()
        invariant
            i <= deleted.len(),
            dv == str_views(deleted@),
            cv == pair_views(created@),
            ({
                let st = phase_drafts(st0, dv, cv, dt@, i as int);
                store@ == st.s && str_views(hd@) == st.hd && str_views(hc@) == st.hc
            }),
        decreases deleted.len() - i,
    {
        let draft_path = &deleted[i];
        proof {
            assert(dv[i as int] == draft_path@);
        }
        if is_draft_md(draft_path.as_str()) {
            if let Some(published) = published_path_from_draft(draft_path.as_str()) {
                if let Some(k) = find_created_at(created, &published) {
                    let created_path = created[k].0.clone();
                    let oid = created[k].1;
                    transfer_post_to_path(store, draft_path, created_path.clone(), oid, dt);
                    set_publication_date(store, &created_path, dt);
                    push_path(hd, draft_path);
                    push_path(hc, &created_path);
                }
            }
        }
        i += 1;
    }
}

fn rename_phase(
    store: &mut BlogPostStore,
    deleted: &Vec<String>,
    created: &Vec<(String, ObjectId)>,
    dt: Timestamp,
    hd: &mut Vec<String>,
    hc: &mut Vec<String>,
)
    ensures
        ({
            let st = phase_renames(
                ApplyV { s: old(store)@, hd: str_views(old(hd)@), hc: str_views(old(hc)@) },
                str_views(deleted@),
                pair_views(created@),
                dt@,
                deleted@.len() as int,
            );
            final(store)@ == st.s && str_views(final(hd)@) == st.hd && str_views(final(hc)@)
                == st.hc
        }),
{
    let ghost st0 = ApplyV { s: store@, hd: str_views(hd@), hc: str_views(hc@) };
    let ghost dv = str_views(deleted@);
    let ghost cv = pair_views(created@);
    let mut i: usize = 0;
    while i < deleted.len()
        invariant
            i <= deleted.len(),
            dv == str_views(deleted@),
            cv == pair_views(created@),
            ({
                let st = phase_renames(st0, dv, cv, dt@, i as int);
                store@ == st.s && str_views(hd@) == st.hd && str_views(hc@) == st.hc
            }),
        decreases deleted.len() - i,
    {
        let del_path = &deleted[i];
        proof {
            assert(dv[i as int] == del_path@);
        }
        if !contains_path(hd, del_path) {
            if let Some(post) = get_by_path(store, del_path) {
                if let Some(k) = find_created_with_blob(created, hc, post.object_id) {
                    let created_path = created[k].0.clone();
                    let oid = created[k].1;
                    transfer_post_to_path(store, del_path, created_path.clone(), oid, dt);
                    push_path(hd, del_path);
                    push_path(hc, &created_path);
                }
            }
        }
        i += 1;
    }
}

fn pair_phase(
    store: &mut BlogPostStore,
    deleted: &Vec<String>,
    created: &Vec<(String, ObjectId)>,
    dt: Timestamp,
    hd: &mut Vec<String>,
    hc: &mut Vec<String>,
)
    ensures
        ({
            let st = pair_step(
                ApplyV { s: old(store)@, hd: str_views(old(hd)@), hc: str_views(old(hc)@) },
                str_views(deleted@),
                pair_views(created@),
                dt@,
            );
            final(store)@ == st.s && str_views(final(hd)@) == st.hd && str_views(final(hc)@)
                == st.hc
        }),
{
    let ghost st0 = ApplyV { s: store@, hd: str_views(hd@), hc: str_views(hc@) };
    let ghost dv = str_views(deleted@);
    let ghost cv = pair_views(created@);
    let mut rd: Vec<String> = Vec::new();
    let mut i: usize = 0;
    while i < deleted.len()
        invariant
            i <= deleted.len(),
            dv == str_views(deleted@),
            store@ == st0.s,
            str_views(hd@) == st0.hd,
            str_views(rd@) == remaining_deleted(st0, dv.take(i as int)),
        decreases deleted.len() - i,
    {
        proof {
            assert(dv.take(i + 1).drop_last() =~= dv.take(i as int));
            reveal(Seq::filter);
            assert(dv.take(i + 1).last() == deleted@[i as int]@);
        }
        if !contains_path(hd, &deleted[i]) && get_by_path(store, &deleted[i]).is_some() {
            push_path(&mut rd, &deleted[i]);
        }
        i += 1;
    }
    let mut rc: Vec<(String, ObjectId)> = Vec::new();
    let mut j: usize = 0;
    while j < created.len()
        invariant
            j <= created.len(),
            cv == pair_views(created@),
            str_views(hc@) == st0.hc,
            pair_views(rc@) == remaining_created(st0, cv.take(j as int)),
        decreases created.len() - j,
    {
        proof {
            assert(cv.take(j + 1).drop_last() =~= cv.take(j as int));
            reveal(Seq::filter);
            assert(cv.take(j + 1).last() == cv[j as int]);
        }
        if !contains_path(hc, &created[j].0) {
            let c = (created[j].0.clone(), created[j].1);
            proof {
                assert(pair_views(rc@.push(c)) =~= pair_views(rc@).push((c.0@, c.1)));
            }
            rc.push(c);
        }
        j += 1;
    }
    proof {
        assert(dv.take(dv.len() as int) =~= dv);
        assert(cv.take(cv.len() as int) =~= cv);
    }
    if rd.len() == 1 && rc.len() == 1 {
        let del_path = rd[0].clone();
        let created_path = rc[0].0.clone();
        let oid = rc[0].1;
        transfer_post_to_path(store, &del_path, created_path.clone(), oid, dt);
        push_path(hd, &del_path);
        push_path(hc, &created_path);
    }
}


fn delete_phase(
    store: &mut BlogPostStore,
    deleted: &Vec<String>,
    hd: &Vec<String>,
    hc: &Vec<String>,
)
    requires
        forall|i: int| 0 <= i < deleted@.len() ==> !ignore_check_panics(#[trigger] deleted@[i]@),
    ensures
        final(store)@ == phase_deletes(
            ApplyV { s: old(store)@, hd: str_views(hd@), hc: str_views(hc@) },
            str_views(deleted@),
            deleted@.len() as int,
        ).s,
{
    let ghost st0 = ApplyV { s: store@, hd: str_views(hd@), hc: str_views(hc@) };
    let ghost dv = str_views(deleted@);
    let mut i: usize = 0;
    while i < deleted.len()
        invariant
            i <= deleted.len(),
            dv == str_views(deleted@),
            st0.hd == str_views(hd@),
            st0.hc == str_views(hc@),
            forall|j: int| 0 <= j < deleted@.len() ==> !ignore_check_panics(#[trigger] deleted@[j]@),
            ({
                let st = phase_deletes(st0, dv, i as int);
                store@ == st.s && st.hd == st0.hd && st.hc == st0.hc
            }),
        decreases deleted.len() - i,
    {
        let del_path = &deleted[i];
        proof {
            assert(dv[i as int] == del_path@);
        }
        if !contains_path(hd, del_path) && !path_is_ignored(del_path.as_str(), false)
            && has_md_extension(del_path.as_str()) {
            if get_by_path(store, del_path).is_some() {
                remove_by_path(store, del_path);
            }
        }
        i += 1;
    }
}

fn create_phase(
    store: &mut BlogPostStore,
    created: &Vec<(String, ObjectId)>,
    dt: Timestamp,
    hd: &Vec<String>,
    hc: &Vec<String>,
)
    requires
        forall|i: int| 0 <= i < created@.len() ==> !ignore_check_panics(#[trigger] created@[i].0@),
    ensures
        final(store)@ == phase_creates(
            ApplyV { s: old(store)@, hd: str_views(hd@), hc: str_views(hc@) },
            pair_views(created@),
            dt@,
            created@.len() as int,
        ).s,
{
    let ghost st0 = ApplyV { s: store@, hd: str_views(hd@), hc: str_views(hc@) };
    let ghost cv = pair_views(created@);
    let mut i: usize = 0;
    while i < created.len()
        invariant
            i <= created.len(),
            cv == pair_views(created@),
            st0.hd == str_views(hd@),
            st0.hc == str_views(hc@),
            forall|j: int| 0 <= j < created@.len() ==> !ignore_check_panics(#[trigger] created@[j].0@),
            ({
                let st = phase_creates(st0, cv, dt@, i as int);
                store@ == st.s && st.hd == st0.hd && st.hc == st0.hc
            }),
        decreases created.len() - i,
    {
        let path = &created[i].0;
        let oid = created[i].1;
        proof {
            assert(cv[i as int] == (path@, oid));
        }
        if !contains_path(hc, path) && !path_is_ignored(path.as_str(), false) && has_md_extension(
            path.as_str(),
        ) {
            let mut done = false;
            if let Some(existing) = get_by_object_id(store, &oid) {
                if existing.path != *path {
                    try_set_publication_date(store, &existing.path, dt);
                    if dt.is_after(&existing.last_updated) {
                        let mut update = BlogPostUpdate::none();
                        update.last_updated = Some(dt);
                        proof {
                            assert(update@ == touch_update(dt@));
                        }
                        let _ = update_by_object_id(store, &oid, update);
                    }
                    done = true;
                }
            }
            if !done {
                register_object_path(store, oid, path.clone(), dt);
                try_set_publication_date(store, path, dt);
                let mut update = BlogPostUpdate::none();
                update.path = Some(path.clone());
                update.last_updated = Some(dt);
                proof {
                    assert(update@ == move_update(path@, dt@));
                }
                let _ = update_by_object_id(store, &oid, update);
            }
        }
        i += 1;
    }
}

fn modify_phase(store: &mut BlogPostStore, modified: &Vec<(String, ObjectId)>, dt: Timestamp)
    requires
        forall|i: int| 0 <= i < modified@.len() ==> !ignore_check_panics(#[trigger] modified@[i].0@),
    ensures
        forall|hd: Seq<Seq<char>>, hc: Seq<Seq<char>>|
            final(store)@ == #[trigger] phase_modifies(
                ApplyV { s: old(store)@, hd, hc },
                pair_views(modified@),
                dt@,
                modified@.len() as int,
            ).s,
{
    let ghost s0 = store@;
    let ghost mv = pair_views(modified@);
    let mut i: usize = 0;
    while i < modified.len()
        invariant
            i <= modified.len(),
            mv == pair_views(modified@),
            forall|j: int| 0 <= j < modified@.len() ==> !ignore_check_panics(#[trigger] modified@[j].0@),
            forall|hd: Seq<Seq<char>>, hc: Seq<Seq<char>>|
                #![trigger phase_modifies(ApplyV { s: s0, hd, hc }, mv, dt@, i as int)]
                store@ == phase_modifies(ApplyV { s: s0, hd, hc }, mv, dt@, i as int).s
                    && phase_modifies(ApplyV { s: s0, hd, hc }, mv, dt@, i as int).hd == hd
                    && phase_modifies(ApplyV { s: s0, hd, hc }, mv, dt@, i as int).hc == hc,
        decreases modified.len() - i,
    {
        let path = &modified[i].0;
        let oid = modified[i].1;
        proof {
            assert(mv[i as int] == (path@, oid));
        }
        let ghost before = store@;
        if !path_is_ignored(path.as_str(), false) && has_md_extension(path.as_str()) {
            register_object_path(store, oid, path.clone(), dt);
            let mut update = BlogPostUpdate::none();
            update.path = Some(path.clone());
            update.last_updated = Some(dt);
            proof {
                assert(update@ == move_update(path@, dt@));
            }
            let _ = update_by_object_id(store, &oid, update);
        }
        proof {
            assert forall|hd: Seq<Seq<char>>, hc: Seq<Seq<char>>|
                #![trigger phase_modifies(ApplyV { s: s0, hd, hc }, mv, dt@, i + 1)]
                store@ == phase_modifies(ApplyV { s: s0, hd, hc }, mv, dt@, i + 1).s
                    && phase_modifies(ApplyV { s: s0, hd, hc }, mv, dt@, i + 1).hd == hd
                    && phase_modifies(ApplyV { s: s0, hd, hc }, mv, dt@, i + 1).hc == hc by {
                let prev = phase_modifies(ApplyV { s: s0, hd, hc }, mv, dt@, i as int);
                assert(prev.s == before);
            }
        }
        i += 1;
    }
}

/// Applies one commit's tree diff, at commit time `commit_dt`, to the store (history is walked
/// newest first): a draft replaced by its published file moves there and is published at the
/// commit time; a deleted post whose blob reappears elsewhere (or the single remaining deleted
/// post, when a single created file remains) moves to the new path and keeps its publication
/// date; other deleted Markdown posts are dropped; created Markdown files are registered and
/// published at the commit time when not yet; modified ones are re-registered.
pub fn apply_tree_diff_to_blog_posts(
    store: &mut BlogPostStore,
    diff: &Vec<(String, State, Option<ObjectId>)>,
    commit_dt: Timestamp,
)
    requires
        diff_paths_checkable(diff_view(diff@)),
    ensures
        final(store)@ == apply_diff_spec(old(store)@, diff_view(diff@), commit_dt@),
{
    let (deleted, created, modified) = partition_diff(diff);
    proof {
        lemma_partition_checkable(diff_view(diff@));
        assert forall|i: int| 0 <= i < deleted@.len() implies !ignore_check_panics(
            #[trigger] deleted@[i]@,
        ) by {
            assert(str_views(deleted@)[i] == deleted@[i]@);
        }
        assert forall|i: int| 0 <= i < created@.len() implies !ignore_check_panics(
            #[trigger] created@[i].0@,
        ) by {
            assert(pair_views(created@)[i].0 == created@[i].0@);
        }
        assert forall|i: int| 0 <= i < modified@.len() implies !ignore_check_panics(
            #[trigger] modified@[i].0@,
        ) by {
            assert(pair_views(modified@)[i].0 == modified@[i].0@);
        }
    }
    let mut handled_deleted: Vec<String> = Vec::new();
    let mut handled_created: Vec<String> = Vec::new();
    proof {
        assert(str_views(handled_deleted@) =~= Seq::<Seq<char>>::empty());
        assert(str_views(handled_created@) =~= Seq::<Seq<char>>::empty());
    }
    draft_phase(store, &deleted, &created, commit_dt, &mut handled_deleted, &mut handled_created);
    rename_phase(store, &deleted, &created, commit_dt, &mut handled_deleted, &mut handled_created);
    pair_phase(store, &deleted, &created, commit_dt, &mut handled_deleted, &mut handled_created);
    delete_phase(store, &deleted, &handled_deleted, &handled_created);
    create_phase(store, &created, commit_dt, &handled_deleted, &handled_created);
    let ghost s5 = store@;
    modify_phase(store, &modified, commit_dt);
    proof {
        let ghost dv = diff_view(diff@);
        let st0 = ApplyV { s: old(store)@, hd: seq![], hc: seq![] };
        let deleted_v = deleted_of(dv);
        let created_v = created_of(dv);
        let st1 = phase_drafts(st0, deleted_v, created_v, commit_dt@, deleted_v.len() as int);
        let st2 = phase_renames(st1, deleted_v, created_v, commit_dt@, deleted_v.len() as int);
        let st3 = pair_step(st2, deleted_v, created_v, commit_dt@);
        let st4 = phase_deletes(st3, deleted_v, deleted_v.len() as int);
        lemma_phase_deletes_keeps_handled(st3, deleted_v, deleted_v.len() as int);
        let st5 = phase_creates(st4, created_v, commit_dt@, created_v.len() as int);
        lemma_phase_creates_keeps_handled(st4, created_v, commit_dt@, created_v.len() as int);
        assert(s5 == st5.s);
        let _ = phase_modifies(
            ApplyV { s: s5, hd: st5.hd, hc: st5.hc },
            modified_of(dv),
            commit_dt@,
            modified_of(dv).len() as int,
        );
        assert(ApplyV { s: s5, hd: st5.hd, hc: st5.hc } == st5);
    }
}

proof fn lemma_phase_deletes_keeps_handled(st: ApplyV, deleted: Seq<Seq<char>>, n: int)
    ensures
        phase_deletes(st, deleted, n).hd == st.hd,
        phase_deletes(st, deleted, n).hc == st.hc,
    decreases n,
{
    if n > 0 {
        lemma_phase_deletes_keeps_handled(st, deleted, n - 1);
    }
}

proof fn lemma_phase_creates_keeps_handled(
    st: ApplyV,
    created: Seq<(Seq<char>, ObjectId)>,
    dt: TimeV,
    n: int,
)
    ensures
        phase_creates(st, created, dt, n).hd == st.hd,
        phase_creates(st, created, dt, n).hc == st.hc,
    decreases n,
{
    if n > 0 {
        lemma_phase_creates_keeps_handled(st, created, dt, n - 1);
    }
}

proof fn lemma_partition_checkable(d: Seq<DiffV>)
    requires
        diff_paths_checkable(d),
    ensures
        forall|i: int|
            0 <= i < deleted_of(d).len() ==> !ignore_check_panics(#[trigger] deleted_of(d)[i]),
        forall|i: int|
            0 <= i < created_of(d).len() ==> !ignore_check_panics(#[trigger] created_of(d)[i].0),
        forall|i: int|
            0 <= i < modified_of(d).len() ==> !ignore_check_panics(#[trigger] modified_of(d)[i].0),
    decreases d.len(),
{
    if d.len() > 0 {
        let p = d.drop_last();
        assert forall|i: int| 0 <= i < p.len() implies !ignore_check_panics(#[trigger] p[i].0) by {
            assert(p[i] == d[i]);
        }
        lemma_partition_checkable(p);
        let last = d.last();
        assert(!ignore_check_panics(d[d.len() - 1].0));
        assert(!ignore_check_panics(last.0));
        let dp = deleted_of(p);
        assert forall|i: int| 0 <= i < deleted_of(d).len() implies !ignore_check_panics(
            #[trigger] deleted_of(d)[i],
        ) by {
            if i < dp.len() {
                assert(deleted_of(d)[i] == dp[i]);
            } else {
                assert(deleted_of(d)[i] == last.0);
            }
        }
        let cp = created_of(p);
        assert forall|i: int| 0 <= i < created_of(d).len() implies !ignore_check_panics(
            #[trigger] created_of(d)[i].0,
        ) by {
            if i < cp.len() {
                assert(created_of(d)[i] == cp[i]);
            } else {
                assert(created_of(d)[i].0 == last.0);
            }
        }
        let mp = modified_of(p);
        assert forall|i: int| 0 <= i < modified_of(d).len() implies !ignore_check_panics(
            #[trigger] modified_of(d)[i].0,
        ) by {
            if i < mp.len() {
                assert(modified_of(d)[i] == mp[i]);
            } else {
                assert(modified_of(d)[i].0 == last.0);
            }
        }
    }
}


/// One entry of a git tree: file name, object id, whether it is a subtree and, for a subtree
/// whose object is at hand, its entries.
pub struct TreeEntry {
    pub filename: String,
    pub oid: ObjectId,
    pub is_tree: bool,
    pub subtree: Option<Box<GitTree>>,
}

/// A git tree with the subtrees that are at hand.
pub struct GitTree {
    pub entries: Vec<TreeEntry>,
}

/// Index of the last entry named `name` (the one a lookup by name finds).
pub open spec fn last_named(es: Seq<TreeEntry>, name: Seq<char>) -> Option<int>
    decreases es.len(),
{
    if es.len() == 0 {
        None
    } else if es[es.len() - 1].filename@ == name {
        Some(es.len() - 1)
    } else {
        last_named(es.subrange(0, es.len() - 1), name)
    }
}

/// The diff entry of a blob found on one side only.
pub open spec fn one_side_blob(full: Seq<char>, oid: ObjectId, state: State) -> DiffV {
    (full, state, if state == State::Created { Some(oid) } else { None })
}

/// Every blob below the first `n` entries of a tree that exists on one side only, reported with
/// `state` (with its blob when the side is the new one).
pub open spec fn one_side(base: Seq<char>, es: Seq<TreeEntry>, n: int, state: State) -> Seq<
    DiffV,
>
    decreases es, n,
{
    if n <= 0 || n > es.len() {
        seq![]
    } else {
        let e = es[n - 1];
        let prev = one_side(base, es, n - 1, state);
        let full = std_join(base, e.filename@);
        if e.is_tree {
            match e.subtree {
                Some(t) => {
                    proof {
                        assert(decreases_to!(es => t.entries@));
                    }
                    prev + one_side(full, t.entries@, t.entries@.len() as int, state)
                },
                None => prev,
            }
        } else {
            prev.push(one_side_blob(full, e.oid, state))
        }
    }
}

/// All of a subtree found on one side only, when it is at hand.
pub open spec fn sub_side(full: Seq<char>, sub: Option<Box<GitTree>>, state: State) -> Seq<DiffV> {
    match sub {
        Some(t) => one_side(full, t.entries@, t.entries@.len() as int, state),
        None => seq![],
    }
}

/// Entries present under the same name on both sides, and entries only on the old side, for the
/// first `n` entries of the old tree (each name once, by its last entry): an unchanged object is
/// skipped; two subtrees are compared; two blobs give a modification; a blob replaced by a
/// subtree, or the other way, gives a deletion and a creation.
pub open spec fn both_sides(
    base: Seq<char>,
    lall: Seq<TreeEntry>,
    rall: Seq<TreeEntry>,
    n: int,
) -> Seq<DiffV>
    decreases lall, n,
{
    if n <= 0 || n > lall.len() {
        seq![]
    } else {
        let i = n - 1;
        let l = lall[i];
        let prev = both_sides(base, lall, rall, i);
        if last_named(lall, l.filename@) != Some(i) {
            prev
        } else {
            let full = std_join(base, l.filename@);
            match last_named(rall, l.filename@) {
                None => if l.is_tree {
                    prev + sub_side(full, l.subtree, State::Deleted)
                } else {
                    prev.push((full, State::Deleted, None))
                },
                Some(k) => {
                    let r = rall[k];
                    if l.oid == r.oid {
                        prev
                    } else if l.is_tree && r.is_tree {
                        match (l.subtree, r.subtree) {
                            (Some(a), Some(b)) => {
                                proof {
                                    assert(decreases_to!(lall => a.entries@));
                                }
                                prev + both_sides(
                                    full,
                                    a.entries@,
                                    b.entries@,
                                    a.entries@.len() as int,
                                ) + right_only(full, a.entries@, b.entries@, b.entries@.len() as int)
                            },
                            (Some(a), None) => prev + one_side(
                                full,
                                a.entries@,
                                a.entries@.len() as int,
                                State::Deleted,
                            ),
                            (None, Some(b)) => prev + one_side(
                                full,
                                b.entries@,
                                b.entries@.len() as int,
                                State::Created,
                            ),
                            (None, None) => prev,
                        }
                    } else if !l.is_tree && !r.is_tree {
                        prev.push((full, State::Modified, Some(r.oid)))
                    } else if l.is_tree {
                        (prev + sub_side(full, l.subtree, State::Deleted)).push(
                            (full, State::Created, Some(r.oid)),
                        )
                    } else {
                        prev.push((full, State::Deleted, None)) + sub_side(
                            full,
                            r.subtree,
                            State::Created,
                        )
                    }
                },
            }
        }
    }
}

/// Entries of the first `n` of the new tree whose name the old tree lacks (each name once, by
/// its last entry): a blob is created, a subtree is created as a whole.
pub open spec fn right_only(
    base: Seq<char>,
    lall: Seq<TreeEntry>,
    rall: Seq<TreeEntry>,
    n: int,
) -> Seq<DiffV>
    decreases n,
{
    if n <= 0 || n > rall.len() {
        seq![]
    } else {
        let k = n - 1;
        let r = rall[k];
        let prev = right_only(base, lall, rall, k);
        if last_named(rall, r.filename@) != Some(k) || last_named(lall, r.filename@) is Some {
            prev
        } else {
            let full = std_join(base, r.filename@);
            if r.is_tree {
                prev + sub_side(full, r.subtree, State::Created)
            } else {
                prev.push((full, State::Created, Some(r.oid)))
            }
        }
    }
}

/// What changed from one tree's entries to another's, path by path.
pub open spec fn tree_diff_entries(from: Seq<TreeEntry>, to: Seq<TreeEntry>) -> Seq<DiffV> {
    both_sides(seq![], from, to, from.len() as int) + right_only(seq![], from, to, to.len() as int)
}

/// What changed from one tree to another, path by path.
pub open spec fn tree_diff_spec(from: GitTree, to: GitTree) -> Seq<DiffV> {
    tree_diff_entries(from.entries@, to.entries@)
}


fn last_named_exec(es: &Vec<TreeEntry>, name: &String) -> (r: Option<usize>)
    ensures
        match r {
            Some(i) => i < es@.len() && last_named(es@, name@) == Some(i as int),
            None => last_named(es@, name@) is None,
        },
{
    let mut i = es.len();
    proof {
        assert(es@.subrange(0, es@.len() as int) =~= es@);
    }
    while i > 0
        invariant
            i <= es.len(),
            last_named(es@.subrange(0, i as int), name@) == last_named(es@, name@),
        decreases i,
    {
        proof {
            let s = es@.subrange(0, i as int);
            assert(s.subrange(0, s.len() - 1) =~= es@.subrange(0, i - 1));
            assert(s[s.len() - 1] == es@[i - 1]);
        }
        if es[i - 1].filename == *name {
            return Some(i - 1);
        }
        i -= 1;
    }
    None
}

fn push_diff(
    out: &mut Vec<(String, State, Option<ObjectId>)>,
    path: String,
    state: State,
    oid: Option<ObjectId>,
)
    ensures
        diff_view(final(out)@) == diff_view(old(out)@).push((path@, state, oid)),
{
    let ghost before = out@;
    let ghost pv = path@;
    out.push((path, state, oid));
    proof {
        assert(diff_view(out@) =~= diff_view(before).push((pv, state, oid)));
    }
}

proof fn lemma_add_assoc(a: Seq<DiffV>, b: Seq<DiffV>, c: Seq<DiffV>)
    ensures
        a + b + c == a + (b + c),
{
    assert(a + b + c =~= a + (b + c));
}

proof fn lemma_add_push(a: Seq<DiffV>, b: Seq<DiffV>, x: DiffV)
    ensures
        (a + b).push(x) == a + b.push(x),
{
    assert((a + b).push(x) =~= a + b.push(x));
}

fn one_side_exec(
    base: &String,
    es: &Vec<TreeEntry>,
    state: State,
    out: &mut Vec<(String, State, Option<ObjectId>)>,
)
    ensures
        diff_view(final(out)@) == diff_view(old(out)@) + one_side(
            base@,
            es@,
            es@.len() as int,
            state,
        ),
    decreases es@,
{
    let ghost start = diff_view(out@);
    let mut i: usize = 0;
    proof {
        assert(start + one_side(base@, es@, 0, state) =~= start);
    }
    while i < es.len()
        invariant
            i <= es.len(),
            diff_view(out@) == start + one_side(base@, es@, i as int, state),
        decreases es.len() - i,
    {
        let e = &es[i];
        let full = path_join(base.as_str(), e.filename.as_str());
        let ghost prev = one_side(base@, es@, i as int, state);
        if e.is_tree {
            match &e.subtree {
                Some(t) => {
                    proof {
                        assert(decreases_to!(es@ => t.entries@));
                    }
                    one_side_exec(&full, &t.entries, state, out);
                    proof {
                        lemma_add_assoc(
                            start,
                            prev,
                            one_side(full@, t.entries@, t.entries@.len() as int, state),
                        );
                    }
                },
                None => {},
            }
        } else {
            let oid = if state == State::Created {
                Some(e.oid)
            } else {
                None
            };
            push_diff(out, full, state, oid);
            proof {
                lemma_add_push(start, prev, one_side_blob(std_join(base@, e.filename@), e.oid, state));
            }
        }
        i += 1;
    }
}

fn sub_side_exec(
    full: &String,
    sub: &Option<Box<GitTree>>,
    state: State,
    out: &mut Vec<(String, State, Option<ObjectId>)>,
)
    ensures
        diff_view(final(out)@) == diff_view(old(out)@) + sub_side(full@, *sub, state),
{
    match sub {
        Some(t) => {
            one_side_exec(full, &t.entries, state, out);
        },
        None => {
            proof {
                assert(diff_view(out@) + seq![] =~= diff_view(out@));
            }
        },
    }
}

fn right_only_exec(
    base: &String,
    lall: &Vec<TreeEntry>,
    rall: &Vec<TreeEntry>,
    out: &mut Vec<(String, State, Option<ObjectId>)>,
)
    ensures
        diff_view(final(out)@) == diff_view(old(out)@) + right_only(
            base@,
            lall@,
            rall@,
            rall@.len() as int,
        ),
{
    let ghost start = diff_view(out@);
    let mut k: usize = 0;
    proof {
        assert(start + right_only(base@, lall@, rall@, 0) =~= start);
    }
    while k < rall.len()
        invariant
            k <= rall.len(),
            diff_view(out@) == start + right_only(base@, lall@, rall@, k as int),
        decreases rall.len() - k,
    {
        let r = &rall[k];
        let ghost prev = right_only(base@, lall@, rall@, k as int);
        let own = last_named_exec(rall, &r.filename);
        let in_left = last_named_exec(lall, &r.filename);
        let representative = match own {
            Some(j) => j == k,
            None => false,
        };
        if representative && in_left.is_none() {
            let full = path_join(base.as_str(), r.filename.as_str());
            if r.is_tree {
                sub_side_exec(&full, &r.subtree, State::Created, out);
                proof {
                    lemma_add_assoc(start, prev, sub_side(full@, r.subtree, State::Created));
                }
            } else {
                push_diff(out, full, State::Created, Some(r.oid));
                proof {
                    lemma_add_push(start, prev, (std_join(base@, r.filename@), State::Created, Some(r.oid)));
                }
            }
        }
        k += 1;
    }
}

fn both_sides_exec(
    base: &String,
    lall: &Vec<TreeEntry>,
    rall: &Vec<TreeEntry>,
    out: &mut Vec<(String, State, Option<ObjectId>)>,
)
    ensures
        diff_view(final(out)@) == diff_view(old(out)@) + both_sides(
            base@,
            lall@,
            rall@,
            lall@.len() as int,
        ),
    decreases lall@,
{
    let ghost start = diff_view(out@);
    let mut i: usize = 0;
    proof {
        assert(start + both_sides(base@, lall@, rall@, 0) =~= start);
    }
    while i < lall.len()
        invariant
            i <= lall.len(),
            diff_view(out@) == start + both_sides(base@, lall@, rall@, i as int),
        decreases lall.len() - i,
    {
        let l = &lall[i];
        let ghost prev = both_sides(base@, lall@, rall@, i as int);
        let representative = match last_named_exec(lall, &l.filename) {
            Some(j) => j == i,
            None => false,
        };
        if representative {
            let full = path_join(base.as_str(), l.filename.as_str());
            let ghost fv = full@;
            match last_named_exec(rall, &l.filename) {
                None => {
                    if l.is_tree {
                        sub_side_exec(&full, &l.subtree, State::Deleted, out);
                        proof {
                            lemma_add_assoc(start, prev, sub_side(fv, l.subtree, State::Deleted));
                        }
                    } else {
                        push_diff(out, full, State::Deleted, None);
                        proof {
                            lemma_add_push(start, prev, (fv, State::Deleted, None));
                        }
                    }
                },
                Some(k) => {
                    let r = &rall[k];
                    if l.oid == r.oid {
                    } else if l.is_tree && r.is_tree {
                        match (&l.subtree, &r.subtree) {
                            (Some(a), Some(b)) => {
                                proof {
                                    assert(decreases_to!(lall@ => a.entries@));
                                }
                                let ghost mid0 = diff_view(out@);
                                both_sides_exec(&full, &a.entries, &b.entries, out);
                                let ghost bs = both_sides(
                                    fv,
                                    a.entries@,
                                    b.entries@,
                                    a.entries@.len() as int,
                                );
                                right_only_exec(&full, &a.entries, &b.entries, out);
                                let ghost ro = right_only(
                                    fv,
                                    a.entries@,
                                    b.entries@,
                                    b.entries@.len() as int,
                                );
                                proof {
                                    assert(diff_view(out@) =~= start + (prev + bs + ro));
                                }
                            },
                            (Some(a), None) => {
                                one_side_exec(&full, &a.entries, State::Deleted, out);
                                proof {
                                    lemma_add_assoc(
                                        start,
                                        prev,
                                        one_side(
                                            fv,
                                            a.entries@,
                                            a.entries@.len() as int,
                                            State::Deleted,
                                        ),
                                    );
                                }
                            },
                            (None, Some(b)) => {
                                one_side_exec(&full, &b.entries, State::Created, out);
                                proof {
                                    lemma_add_assoc(
                                        start,
                                        prev,
                                        one_side(
                                            fv,
                                            b.entries@,
                                            b.entries@.len() as int,
                                            State::Created,
                                        ),
                                    );
                                }
                            },
                            (None, None) => {},
                        }
                    } else if !l.is_tree && !r.is_tree {
                        push_diff(out, full, State::Modified, Some(r.oid));
                        proof {
                            lemma_add_push(start, prev, (fv, State::Modified, Some(r.oid)));
                        }
                    } else if l.is_tree {
                        sub_side_exec(&full, &l.subtree, State::Deleted, out);
                        push_diff(out, full, State::Created, Some(r.oid));
                        proof {
                            let ss = sub_side(fv, l.subtree, State::Deleted);
                            assert(diff_view(out@) =~= start + (prev + ss).push(
                                (fv, State::Created, Some(r.oid)),
                            ));
                        }
                    } else {
                        let copy = path_join(base.as_str(), l.filename.as_str());
                        push_diff(out, copy, State::Deleted, None);
                        sub_side_exec(&full, &r.subtree, State::Created, out);
                        proof {
                            let ss = sub_side(fv, r.subtree, State::Created);
                            assert(diff_view(out@) =~= start + (prev.push((fv, State::Deleted, None))
                                + ss));
                        }
                    }
                },
            }
        }
        i += 1;
    }
}

/// What changed from the tree `from` to the tree `to`: each blob path with how it changed and,
/// unless deleted, its new blob. Subtrees that are not at hand are not descended into.
pub fn tree_diff(from: &GitTree, to: &GitTree) -> (r: Vec<(String, State, Option<ObjectId>)>)
    ensures
        diff_view(r@) == tree_diff_spec(*from, *to),
{
    let mut out: Vec<(String, State, Option<ObjectId>)> = Vec::new();
    let base = String::new();
    proof {
        assert(diff_view(out@) =~= Seq::<DiffV>::empty());
        assert(base@ =~= Seq::<char>::empty());
    }
    both_sides_exec(&base, &from.entries, &to.entries, &mut out);
    right_only_exec(&base, &from.entries, &to.entries, &mut out);
    proof {
        assert(diff_view(out@) =~= tree_diff_spec(*from, *to));
    }
    out
}


proof fn lemma_single_created(p: Seq<char>, o: ObjectId)
    ensures
        deleted_of(seq![(p, State::Created, Some(o))]) == Seq::<Seq<char>>::empty(),
        created_of(seq![(p, State::Created, Some(o))]) == seq![(p, o)],
        modified_of(seq![(p, State::Created, Some(o))]) == Seq::<(Seq<char>, ObjectId)>::empty(),
{
    let d = seq![(p, State::Created, Some(o))];
    assert(d.drop_last() =~= Seq::<DiffV>::empty());
    reveal_with_fuel(deleted_of, 2);
    reveal_with_fuel(created_of, 2);
    reveal_with_fuel(modified_of, 2);
    assert(created_of(d) =~= seq![(p, o)]);
}

proof fn lemma_deleted_then_created(a: Seq<char>, b: Seq<char>, o: ObjectId)
    ensures
        deleted_of(seq![(a, State::Deleted, None), (b, State::Created, Some(o))]) == seq![a],
        created_of(seq![(a, State::Deleted, None), (b, State::Created, Some(o))]) == seq![(b, o)],
        modified_of(seq![(a, State::Deleted, None), (b, State::Created, Some(o))]) == Seq::<
            (Seq<char>, ObjectId),
        >::empty(),
{
    let d = seq![(a, State::Deleted, None), (b, State::Created, Some(o))];
    reveal_with_fuel(deleted_of, 3);
    reveal_with_fuel(created_of, 3);
    reveal_with_fuel(modified_of, 3);
    let d1 = d.drop_last();
    assert(d1 =~= seq![(a, State::Deleted, None)]);
    assert(d1.drop_last() =~= Seq::<DiffV>::empty());
    assert(deleted_of(d1) =~= seq![a]);
    assert(created_of(d1) =~= Seq::<(Seq<char>, ObjectId)>::empty());
    assert(modified_of(d1) =~= Seq::<(Seq<char>, ObjectId)>::empty());
    assert(created_of(d) =~= seq![(b, o)]);
}

proof fn lemma_single_deleted(a: Seq<char>)
    ensures
        deleted_of(seq![(a, State::Deleted, None)]) == seq![a],
        created_of(seq![(a, State::Deleted, None)]) == Seq::<(Seq<char>, ObjectId)>::empty(),
        modified_of(seq![(a, State::Deleted, None)]) == Seq::<(Seq<char>, ObjectId)>::empty(),
{
    let d = seq![(a, State::Deleted, None)];
    assert(d.drop_last() =~= Seq::<DiffV>::empty());
    reveal_with_fuel(deleted_of, 2);
    reveal_with_fuel(created_of, 2);
    reveal_with_fuel(modified_of, 2);
    assert(deleted_of(d) =~= seq![a]);
}

/// A Markdown source created in a commit, with a blob that no stored post holds yet, is found
/// at its path with that blob, published at the commit time, unless the post already stored at
/// that path has a publication date, which it keeps.
pub proof fn law_created_source_is_published(s: StoreV, p: Seq<char>, o: ObjectId, dt: TimeV)
    requires
        store_wf(s),
        !is_ignored(p, false),
        is_md(p),
        get_by_oid_spec(s, o) is None,
    ensures
        ({
            let r = apply_diff_spec(s, seq![(p, State::Created, Some(o))], dt);
            let kept = match get_by_path_spec(s, p) {
                Some(q) => q.publication_date,
                None => None,
            };
            &&& store_wf(r)
            &&& get_by_path_spec(r, p) is Some
            &&& get_by_path_spec(r, p)->0.object_id == Some(o)
            &&& get_by_path_spec(r, p)->0.publication_date == if kept is Some {
                kept
            } else {
                Some(dt)
            }
        }),
{
    let diff = seq![(p, State::Created, Some(o))];
    lemma_single_created(p, o);
    let deleted = deleted_of(diff);
    let created = created_of(diff);
    let st0 = ApplyV { s, hd: seq![], hc: seq![] };
    assert(phase_drafts(st0, deleted, created, dt, 0) == st0);
    assert(phase_renames(st0, deleted, created, dt, 0) == st0);
    assert(remaining_deleted(st0, deleted) =~= Seq::<Seq<char>>::empty()) by {
        reveal(Seq::filter);
    }
    assert(pair_step(st0, deleted, created, dt) == st0);
    assert(phase_deletes(st0, deleted, 0) == st0);
    assert(created[0] == (p, o));
    let st5 = phase_creates(st0, created, dt, 1);
    assert(phase_creates(st0, created, dt, 0) == st0);
    assert(st5 == create_step(st0, (p, o), dt));
    assert(!st0.hc.contains(p));
    assert(!s.by_oid.contains_key(o));
    // registration
    let base = match either(get_by_oid_spec(s, o), get_by_path_spec(s, p)) {
        Some(q) => q,
        None => defaults_v(p, dt),
    };
    let rel = relocated(base, o, p, dt);
    lemma_upsert_found(s, rel);
    let (s1, m1) = upsert_spec(s, rel);
    assert(register_spec(s, o, p, dt).0 == s1);
    assert(m1.object_id == Some(o));
    let kept = match get_by_path_spec(s, p) {
        Some(q) => q.publication_date,
        None => None,
    };
    assert(m1.publication_date == kept) by {
        if s.by_path.contains_key(p) {
            assert(live(s.posts, s.by_path[p]));
        }
    }
    // publication
    let s2 = try_set_pub_spec(s1, p, dt);
    if m1.publication_date is None {
        lemma_update_found(s1, s1.by_path[p], publication_update(dt));
    }
    assert(store_wf(s2));
    let m2 = get_by_path_spec(s2, p)->0;
    assert(get_by_path_spec(s2, p) is Some);
    assert(get_by_oid_spec(s2, o) == Some(m2));
    assert(m2.publication_date == if kept is Some { kept } else { Some(dt) });
    // touch
    let id = s2.by_oid[o];
    assert(live(s2.posts, id));
    lemma_update_found(s2, id, move_update(p, dt));
    let s3 = update_oid_spec(s2, o, move_update(p, dt));
    assert(st5.s == s3);
    assert(phase_modifies(st5, Seq::<(Seq<char>, ObjectId)>::empty(), dt, 0) == st5);
}

/// A draft replaced in one commit by its published file is found at the published path,
/// published at the commit time.
pub proof fn law_published_draft_dated_at_commit(
    s: StoreV,
    d: Seq<char>,
    o: ObjectId,
    dt: TimeV,
)
    requires
        store_wf(s),
        is_draft(d),
        published_of_draft(d) is Some,
    ensures
        ({
            let pb = published_of_draft(d)->0;
            let r = apply_diff_spec(
                s,
                seq![(d, State::Deleted, None), (pb, State::Created, Some(o))],
                dt,
            );
            &&& store_wf(r)
            &&& get_by_path_spec(r, pb) is Some
            &&& get_by_path_spec(r, pb)->0.publication_date == Some(dt)
        }),
{
    let pb = published_of_draft(d)->0;
    lemma_deleted_then_created(d, pb, o);
    let deleted = seq![d];
    let created = seq![(pb, o)];
    let st0 = ApplyV { s, hd: seq![], hc: seq![] };
    assert(created.drop_first() =~= Seq::<(Seq<char>, ObjectId)>::empty());
    assert(created_at(created, pb) == Some((pb, o)));
    let st1 = phase_drafts(st0, deleted, created, dt, 1);
    assert(phase_drafts(st0, deleted, created, dt, 0) == st0);
    assert(st1 == draft_step(st0, d, created, dt));
    let s_t = transfer_spec(s, d, pb, o, dt);
    let base = match either(get_by_path_spec(s, d), get_by_oid_spec(s, o)) {
        Some(q) => q,
        None => defaults_v(pb, dt),
    };
    lemma_upsert_found(s, relocated(base, o, pb, dt));
    assert(get_by_path_spec(s_t, pb) is Some);
    lemma_update_found(s_t, s_t.by_path[pb], publication_update(dt));
    assert(st1.s == set_pub_spec(s_t, pb, dt));
    assert(st1.hd == seq![d]);
    assert(st1.hc == seq![pb]);
    assert(st1.hd.contains(d)) by {
        assert(st1.hd[0] == d);
    }
    assert(st1.hc.contains(pb)) by {
        assert(st1.hc[0] == pb);
    }
    let st2 = phase_renames(st1, deleted, created, dt, 1);
    assert(phase_renames(st1, deleted, created, dt, 0) == st1);
    assert(st2 == st1);
    assert(remaining_deleted(st1, deleted) =~= Seq::<Seq<char>>::empty()) by {
        reveal_with_fuel(Seq::filter, 2);
        assert(deleted.drop_last() =~= Seq::<Seq<char>>::empty());
    }
    let st3 = pair_step(st2, deleted, created, dt);
    assert(st3 == st1);
    assert(phase_deletes(st3, deleted, 0) == st3);
    let st4 = phase_deletes(st3, deleted, 1);
    assert(st4 == st3);
    assert(phase_creates(st4, created, dt, 0) == st4);
    let st5 = phase_creates(st4, created, dt, 1);
    assert(st5 == st4);
    assert(phase_modifies(st5, Seq::<(Seq<char>, ObjectId)>::empty(), dt, 0) == st5);
}

/// A stored post whose source moves to another path in a commit, the blob unchanged, is found
/// at the new path with the publication date and title it had, the blob, and the later of its
/// last update and the commit time; nothing is left at the old path.
pub proof fn law_rename_keeps_publication(
    s: StoreV,
    a: Seq<char>,
    b: Seq<char>,
    o: ObjectId,
    dt: TimeV,
)
    requires
        store_wf(s),
        !is_draft(a),
        s.by_path.contains_key(a),
        s.by_oid.contains_key(o),
        s.by_oid[o] == s.by_path[a],
        get_by_path_spec(s, a) matches Some(post) && post.object_id == Some(o) && post.path == a,
    ensures
        ({
            let r = apply_diff_spec(
                s,
                seq![(a, State::Deleted, None), (b, State::Created, Some(o))],
                dt,
            );
            let post = get_by_path_spec(s, a)->0;
            &&& store_wf(r)
            &&& get_by_path_spec(r, b) is Some
            &&& get_by_path_spec(r, b)->0.publication_date == post.publication_date
            &&& get_by_path_spec(r, b)->0.title == post.title
            &&& get_by_path_spec(r, b)->0.object_id == Some(o)
            &&& get_by_path_spec(r, b)->0.last_updated == later(post.last_updated, dt)
            &&& a != b ==> get_by_path_spec(r, a) is None
        }),
{
    lemma_deleted_then_created(a, b, o);
    let deleted = seq![a];
    let created = seq![(b, o)];
    let st0 = ApplyV { s, hd: seq![], hc: seq![] };
    let post = get_by_path_spec(s, a)->0;
    assert(phase_drafts(st0, deleted, created, dt, 0) == st0);
    let st1 = phase_drafts(st0, deleted, created, dt, 1);
    assert(st1 == st0);
    assert(created.drop_first() =~= Seq::<(Seq<char>, ObjectId)>::empty());
    assert(created_with_blob(created, seq![], Some(o)) == Some((b, o)));
    assert(phase_renames(st1, deleted, created, dt, 0) == st1);
    let st2 = phase_renames(st1, deleted, created, dt, 1);
    assert(st2 == rename_step(st1, a, created, dt));
    let rel = relocated(post, o, b, dt);
    lemma_upsert_found(s, rel);
    let (s1, m) = upsert_spec(s, rel);
    assert(st2.s == s1);
    assert(m.publication_date == post.publication_date);
    assert(st2.hd == seq![a]);
    assert(st2.hc == seq![b]);
    assert(st2.hd.contains(a)) by {
        assert(st2.hd[0] == a);
    }
    assert(st2.hc.contains(b)) by {
        assert(st2.hc[0] == b);
    }
    assert(remaining_deleted(st2, deleted) =~= Seq::<Seq<char>>::empty()) by {
        reveal_with_fuel(Seq::filter, 2);
        assert(deleted.drop_last() =~= Seq::<Seq<char>>::empty());
    }
    let st3 = pair_step(st2, deleted, created, dt);
    assert(st3 == st2);
    assert(phase_deletes(st3, deleted, 0) == st3);
    assert(phase_deletes(st3, deleted, 1) == st3);
    let st4 = phase_deletes(st3, deleted, 1);
    assert(phase_creates(st4, created, dt, 0) == st4);
    let st5 = phase_creates(st4, created, dt, 1);
    assert(st5 == st4);
    assert(phase_modifies(st5, Seq::<(Seq<char>, ObjectId)>::empty(), dt, 0) == st5);
}

/// When, after draft publications and renames by blob, exactly one deleted path still holding a
/// stored post and exactly one created path are left, the post from the deleted path is found at
/// the created path: its title and summary are kept, its blob is the created one, its last update
/// is the later of its own and the commit time, and its publication date is kept when it has one
/// (also when it has none and neither the created path nor the blob was stored before). Both
/// paths count as handled from then on.
pub proof fn law_single_remaining_pair_moves(
    st: ApplyV,
    deleted: Seq<Seq<char>>,
    created: Seq<(Seq<char>, ObjectId)>,
    dt: TimeV,
)
    requires
        store_wf(st.s),
        remaining_deleted(st, deleted).len() == 1,
        remaining_created(st, created).len() == 1,
    ensures
        ({
            let d = remaining_deleted(st, deleted)[0];
            let (c, o) = remaining_created(st, created)[0];
            let q = get_by_path_spec(st.s, d)->0;
            let r = pair_step(st, deleted, created, dt);
            let m = get_by_path_spec(r.s, c)->0;
            &&& get_by_path_spec(st.s, d) is Some
            &&& store_wf(r.s)
            &&& get_by_path_spec(r.s, c) is Some
            &&& m.path == c
            &&& m.title == q.title
            &&& m.summary == q.summary
            &&& m.object_id == Some(o)
            &&& m.last_updated == later(q.last_updated, dt)
            &&& q.publication_date is Some ==> m.publication_date == q.publication_date
            &&& (get_by_path_spec(st.s, c) is None && get_by_oid_spec(st.s, o) is None)
                ==> m.publication_date == q.publication_date
            &&& r.hd.contains(d)
            &&& r.hc.contains(c)
        }),
{
    let rd = remaining_deleted(st, deleted);
    let rc = remaining_created(st, created);
    let d = rd[0];
    let (c, o) = rc[0];
    deleted.lemma_filter_pred(
        |x: Seq<char>| !st.hd.contains(x) && get_by_path_spec(st.s, x) is Some,
        0,
    );
    assert(get_by_path_spec(st.s, d) is Some);
    let q = get_by_path_spec(st.s, d)->0;
    assert(either(get_by_path_spec(st.s, d), get_by_oid_spec(st.s, o)) == Some(q));
    let rel = relocated(q, o, c, dt);
    lemma_upsert_found(st.s, rel);
    law_read_after_upsert(st.s, rel);
    let r = pair_step(st, deleted, created, dt);
    assert(r.s == upsert_spec(st.s, rel).0);
    assert(r.hd == st.hd.push(d));
    assert(r.hc == st.hc.push(c));
    assert(r.hd[st.hd.len() as int] == d);
    assert(r.hc[st.hc.len() as int] == c);
    if get_by_path_spec(st.s, c) is None && get_by_oid_spec(st.s, o) is None {
        assert(!st.s.by_path.contains_key(c));
        assert(!st.s.by_oid.contains_key(o));
        assert(post_id_for_spec(st.s, rel.object_id, rel.path) is None);
    }
}

/// A stored post whose source is renamed and edited in one commit (its path deleted, one other
/// path created with a different blob, nothing else changed) is found at the new path with its
/// title, summary and publication date, the new blob, and the later of its last update and the
/// commit time; the publication date is kept also when it had none, as long as neither the new
/// path nor the new blob was stored before.
pub proof fn law_edited_rename_keeps_post(
    s: StoreV,
    a: Seq<char>,
    b: Seq<char>,
    o2: ObjectId,
    dt: TimeV,
)
    requires
        store_wf(s),
        !is_draft(a),
        get_by_path_spec(s, a) matches Some(q) && q.object_id != Some(o2),
    ensures
        ({
            let r = apply_diff_spec(
                s,
                seq![(a, State::Deleted, None), (b, State::Created, Some(o2))],
                dt,
            );
            let q = get_by_path_spec(s, a)->0;
            let m = get_by_path_spec(r, b)->0;
            &&& store_wf(r)
            &&& get_by_path_spec(r, b) is Some
            &&& m.title == q.title
            &&& m.summary == q.summary
            &&& m.object_id == Some(o2)
            &&& m.last_updated == later(q.last_updated, dt)
            &&& q.publication_date is Some ==> m.publication_date == q.publication_date
            &&& (get_by_path_spec(s, b) is None && get_by_oid_spec(s, o2) is None)
                ==> m.publication_date == q.publication_date
        }),
{
    lemma_deleted_then_created(a, b, o2);
    let deleted = seq![a];
    let created = seq![(b, o2)];
    let st0 = ApplyV { s, hd: seq![], hc: seq![] };
    let q = get_by_path_spec(s, a)->0;
    assert(phase_drafts(st0, deleted, created, dt, 0) == st0);
    let st1 = phase_drafts(st0, deleted, created, dt, 1);
    assert(st1 == st0);
    assert(created.drop_first() =~= Seq::<(Seq<char>, ObjectId)>::empty());
    assert(created[0] == (b, o2));
    assert(q.object_id != Some(created[0].1));
    assert(created_with_blob(created.drop_first(), seq![], q.object_id) is None);
    assert(created_with_blob(created, seq![], q.object_id) is None);
    assert(phase_renames(st1, deleted, created, dt, 0) == st1);
    let st2 = phase_renames(st1, deleted, created, dt, 1);
    assert(st2 == st0);
    assert(remaining_deleted(st0, deleted) =~= seq![a]) by {
        reveal_with_fuel(Seq::filter, 2);
        assert(deleted.drop_last() =~= Seq::<Seq<char>>::empty());
    }
    assert(remaining_created(st0, created) =~= seq![(b, o2)]) by {
        reveal_with_fuel(Seq::filter, 2);
        assert(created.drop_last() =~= Seq::<(Seq<char>, ObjectId)>::empty());
    }
    law_single_remaining_pair_moves(st0, deleted, created, dt);
    let st3 = pair_step(st2, deleted, created, dt);
    assert(st3.hd.contains(a));
    assert(st3.hc.contains(b));
    assert(phase_deletes(st3, deleted, 0) == st3);
    let st4 = phase_deletes(st3, deleted, 1);
    assert(st4 == st3);
    assert(phase_creates(st4, created, dt, 0) == st4);
    let st5 = phase_creates(st4, created, dt, 1);
    assert(st5 == st4);
    assert(phase_modifies(st5, Seq::<(Seq<char>, ObjectId)>::empty(), dt, 0) == st5);
}

/// A Markdown source deleted in a commit, with nothing created, leaves no post at its path;
/// a read at any path that led to another post gives what it gave before.
pub proof fn law_deleted_source_is_dropped(s: StoreV, a: Seq<char>, dt: TimeV)
    requires
        store_wf(s),
        !is_ignored(a, false),
        is_md(a),
    ensures
        ({
            let r = apply_diff_spec(s, seq![(a, State::Deleted, None)], dt);
            &&& store_wf(r)
            &&& get_by_path_spec(r, a) is None
            &&& forall|x: Seq<char>|
                !(s.by_path.contains_key(a) && s.by_path.contains_key(x) && s.by_path[x]
                    == s.by_path[a]) ==> #[trigger] get_by_path_spec(r, x) == get_by_path_spec(
                    s,
                    x,
                )
        }),
{
    lemma_single_deleted(a);
    let deleted = seq![a];
    let created = Seq::<(Seq<char>, ObjectId)>::empty();
    let st0 = ApplyV { s, hd: seq![], hc: seq![] };
    assert(phase_drafts(st0, deleted, created, dt, 0) == st0);
    let st1 = phase_drafts(st0, deleted, created, dt, 1);
    assert(st1 == st0);
    assert(phase_renames(st1, deleted, created, dt, 0) == st1);
    let st2 = phase_renames(st1, deleted, created, dt, 1);
    assert(st2 == st1);
    assert(remaining_created(st2, created) =~= Seq::<(Seq<char>, ObjectId)>::empty()) by {
        reveal(Seq::filter);
    }
    let st3 = pair_step(st2, deleted, created, dt);
    assert(st3 == st2);
    assert(phase_deletes(st3, deleted, 0) == st3);
    let st4 = phase_deletes(st3, deleted, 1);
    assert(st4 == delete_step(st3, a));
    lemma_remove_path_gone(s, a);
    assert(store_wf(st4.s));
    assert(get_by_path_spec(st4.s, a) is None);
    assert forall|x: Seq<char>|
        !(s.by_path.contains_key(a) && s.by_path.contains_key(x) && s.by_path[x]
            == s.by_path[a]) implies #[trigger] get_by_path_spec(st4.s, x) == get_by_path_spec(
            s,
            x,
        ) by {
        if s.by_path.contains_key(a) && s.by_path.contains_key(x) {
            assert(st4.s.by_path.contains_key(x));
            assert(st4.s.by_path[x] == s.by_path[x]);
        }
    }
    assert(phase_creates(st4, created, dt, 0) == st4);
    assert(phase_modifies(st4, Seq::<(Seq<char>, ObjectId)>::empty(), dt, 0) == st4);
}

proof fn lemma_single_modified(p: Seq<char>, o: ObjectId)
    ensures
        deleted_of(seq![(p, State::Modified, Some(o))]) == Seq::<Seq<char>>::empty(),
        created_of(seq![(p, State::Modified, Some(o))]) == Seq::<(Seq<char>, ObjectId)>::empty(),
        modified_of(seq![(p, State::Modified, Some(o))]) == seq![(p, o)],
{
    let d = seq![(p, State::Modified, Some(o))];
    assert(d.drop_last() =~= Seq::<DiffV>::empty());
    reveal_with_fuel(deleted_of, 2);
    reveal_with_fuel(created_of, 2);
    reveal_with_fuel(modified_of, 2);
    assert(modified_of(d) =~= seq![(p, o)]);
}

proof fn lemma_no_deletes(st0: ApplyV, created: Seq<(Seq<char>, ObjectId)>, dt: TimeV)
    requires
        st0.hd == Seq::<Seq<char>>::empty(),
        st0.hc == Seq::<Seq<char>>::empty(),
        created.len() <= 1,
    ensures
        ({
            let deleted = Seq::<Seq<char>>::empty();
            let st1 = phase_drafts(st0, deleted, created, dt, 0);
            let st2 = phase_renames(st1, deleted, created, dt, 0);
            let st3 = pair_step(st2, deleted, created, dt);
            phase_deletes(st3, deleted, 0) == st0
        }),
{
    let deleted = Seq::<Seq<char>>::empty();
    assert(phase_drafts(st0, deleted, created, dt, 0) == st0);
    assert(phase_renames(st0, deleted, created, dt, 0) == st0);
    assert(remaining_deleted(st0, deleted) =~= Seq::<Seq<char>>::empty()) by {
        reveal(Seq::filter);
    }
    assert(pair_step(st0, deleted, created, dt) == st0);
}

/// A file that is ignored or not Markdown, created or modified in a commit, changes nothing in
/// the store: such files never become posts.
pub proof fn law_unpublishable_source_changes_nothing(
    s: StoreV,
    p: Seq<char>,
    st: State,
    o: ObjectId,
    dt: TimeV,
)
    requires
        st == State::Created || st == State::Modified,
        is_ignored(p, false) || !is_md(p),
    ensures
        apply_diff_spec(s, seq![(p, st, Some(o))], dt) == s,
{
    let st0 = ApplyV { s, hd: seq![], hc: seq![] };
    if st == State::Created {
        lemma_single_created(p, o);
        let created = seq![(p, o)];
        lemma_no_deletes(st0, created, dt);
        assert(phase_creates(st0, created, dt, 0) == st0);
        assert(phase_creates(st0, created, dt, 1) == create_step(st0, (p, o), dt));
        assert(phase_creates(st0, created, dt, 1) == st0);
        assert(phase_modifies(st0, Seq::<(Seq<char>, ObjectId)>::empty(), dt, 0) == st0);
    } else {
        lemma_single_modified(p, o);
        let none = Seq::<(Seq<char>, ObjectId)>::empty();
        lemma_no_deletes(st0, none, dt);
        assert(phase_creates(st0, none, dt, 0) == st0);
        assert(phase_modifies(st0, seq![(p, o)], dt, 0) == st0);
        assert(phase_modifies(st0, seq![(p, o)], dt, 1) == st0);
    }
}

/// A Markdown source modified in a commit, its blob not held by a post at another path, is
/// found at its path with that blob and the commit time as last update, keeping the
/// publication date of the post it was (none for a new post); every other stored post stays
/// as it was.
pub proof fn law_modified_source_updates_its_post(s: StoreV, p: Seq<char>, o: ObjectId, dt: TimeV)
    requires
        store_wf(s),
        !is_ignored(p, false),
        is_md(p),
        get_by_oid_spec(s, o) matches Some(q) ==> q.path == p,
    ensures
        ({
            let r = apply_diff_spec(s, seq![(p, State::Modified, Some(o))], dt);
            let before = either(get_by_oid_spec(s, o), get_by_path_spec(s, p));
            let own = post_id_for_spec(s, Some(o), p);
            &&& store_wf(r)
            &&& get_by_path_spec(r, p) is Some
            &&& get_by_path_spec(r, p)->0.object_id == Some(o)
            &&& get_by_path_spec(r, p)->0.last_updated == dt
            &&& get_by_path_spec(r, p)->0.publication_date == match before {
                Some(q) => q.publication_date,
                None => None,
            }
            &&& forall|j: int|
                0 <= j < s.posts.len() && own != Some(j) ==> #[trigger] lookup(r, j) == lookup(
                    s,
                    j,
                )
        }),
{
    lemma_single_modified(p, o);
    let st0 = ApplyV { s, hd: seq![], hc: seq![] };
    let none = Seq::<(Seq<char>, ObjectId)>::empty();
    lemma_no_deletes(st0, none, dt);
    assert(phase_creates(st0, none, dt, 0) == st0);
    assert(phase_modifies(st0, seq![(p, o)], dt, 0) == st0);
    let st6 = phase_modifies(st0, seq![(p, o)], dt, 1);
    assert(st6 == modify_step(st0, (p, o), dt));
    let base = match either(get_by_oid_spec(s, o), get_by_path_spec(s, p)) {
        Some(q) => q,
        None => defaults_v(p, dt),
    };
    let rel = relocated(base, o, p, dt);
    lemma_upsert_found(s, rel);
    let (s1, m) = upsert_spec(s, rel);
    assert(register_spec(s, o, p, dt).0 == s1);
    let own = post_id_for_spec(s, Some(o), p);
    let id1 = s1.by_oid[o];
    assert(s1.by_oid.contains_key(o));
    match own {
        Some(id) => {
            assert(live(s.posts, id));
            assert(id1 == id);
        },
        None => {
            assert(id1 == s.posts.len());
        },
    }
    assert(live(s1.posts, id1));
    lemma_update_found(s1, id1, move_update(p, dt));
    let r = update_oid_spec(s1, o, move_update(p, dt));
    assert(st6.s == r);
    assert(m.publication_date == match either(get_by_oid_spec(s, o), get_by_path_spec(s, p)) {
        Some(q) => q.publication_date,
        None => None,
    }) by {
        if own is Some {
            assert(s.posts[own->0]->0 == base);
        }
    }
    assert(s1.posts[id1]->0 == m);
}

/// The store after a run of modifications keeps every stored post, with its publication date;
/// posts added by it are unpublished.
pub open spec fn keeps_publication(s: StoreV, r: StoreV) -> bool {
    &&& store_wf(r)
    &&& r.posts.len() >= s.posts.len()
    &&& forall|j: int|
        0 <= j < s.posts.len() && s.posts[j] is Some ==> (#[trigger] r.posts[j]) is Some
            && r.posts[j]->0.publication_date == s.posts[j]->0.publication_date
    &&& forall|j: int|
        s.posts.len() <= j < r.posts.len() && (#[trigger] r.posts[j]) is Some
            ==> r.posts[j]->0.publication_date is None
}

proof fn lemma_only_modified(d: Seq<DiffV>)
    requires
        forall|i: int| 0 <= i < d.len() ==> (#[trigger] d[i]).1 == State::Modified,
    ensures
        deleted_of(d) == Seq::<Seq<char>>::empty(),
        created_of(d) == Seq::<(Seq<char>, ObjectId)>::empty(),
    decreases d.len(),
{
    if d.len() > 0 {
        let t = d.drop_last();
        assert forall|i: int| 0 <= i < t.len() implies (#[trigger] t[i]).1 == State::Modified by {
            assert(t[i] == d[i]);
        }
        lemma_only_modified(t);
        assert(d.last() == d[d.len() - 1]);
    }
}

proof fn lemma_modify_step_keeps(s: StoreV, st: ApplyV, c: (Seq<char>, ObjectId), dt: TimeV)
    requires
        keeps_publication(s, st.s),
    ensures
        keeps_publication(s, modify_step(st, c, dt).s),
{
    let (p, o) = c;
    if !(is_ignored(p, false) || !is_md(p)) {
        let s0 = st.s;
        let base = match either(get_by_oid_spec(s0, o), get_by_path_spec(s0, p)) {
            Some(q) => q,
            None => defaults_v(p, dt),
        };
        let rel = relocated(base, o, p, dt);
        lemma_upsert_found(s0, rel);
        let (s1, m) = upsert_spec(s0, rel);
        assert(register_spec(s0, o, p, dt).0 == s1);
        let own = post_id_for_spec(s0, Some(o), p);
        match own {
            Some(id) => {
                assert(live(s0.posts, id));
                assert(base == s0.posts[id]->0);
                assert(s1.posts == s0.posts.update(id, Some(m)));
                assert(m.publication_date == s0.posts[id]->0.publication_date);
            },
            None => {
                assert(base == defaults_v(p, dt));
                assert(s1.posts == s0.posts.push(Some(m)));
            },
        }
        assert(keeps_publication(s, s1));
        let r = update_oid_spec(s1, o, move_update(p, dt));
        if s1.by_oid.contains_key(o) {
            let id1 = s1.by_oid[o];
            assert(live(s1.posts, id1));
            lemma_update_found(s1, id1, move_update(p, dt));
            assert(r.posts == s1.posts.update(id1, Some(applied(s1.posts[id1]->0, move_update(p, dt)))));
        }
        assert(keeps_publication(s, r));
        assert(modify_step(st, c, dt).s == r);
    }
}

proof fn lemma_phase_modifies_keeps(
    s: StoreV,
    st: ApplyV,
    modified: Seq<(Seq<char>, ObjectId)>,
    dt: TimeV,
    n: int,
)
    requires
        keeps_publication(s, st.s),
        n <= modified.len(),
    ensures
        keeps_publication(s, phase_modifies(st, modified, dt, n).s),
    decreases n,
{
    if n > 0 {
        lemma_phase_modifies_keeps(s, st, modified, dt, n - 1);
        lemma_modify_step_keeps(s, phase_modifies(st, modified, dt, n - 1), modified[n - 1], dt);
    }
}

/// A commit that only modifies files keeps every stored post and its publication date; the
/// posts it adds for modified sources not yet tracked are unpublished.
pub proof fn law_modifications_keep_publication(s: StoreV, diff: Seq<DiffV>, dt: TimeV)
    requires
        store_wf(s),
        forall|i: int| 0 <= i < diff.len() ==> (#[trigger] diff[i]).1 == State::Modified,
    ensures
        keeps_publication(s, apply_diff_spec(s, diff, dt)),
{
    lemma_only_modified(diff);
    let st0 = ApplyV { s, hd: seq![], hc: seq![] };
    let none = Seq::<(Seq<char>, ObjectId)>::empty();
    lemma_no_deletes(st0, none, dt);
    assert(phase_creates(st0, none, dt, 0) == st0);
    assert(keeps_publication(s, s));
    lemma_phase_modifies_keeps(s, st0, modified_of(diff), dt, modified_of(diff).len() as int);
}

/// Store id `j` held the post at one of the first `n` deleted paths.
pub open spec fn deleted_id(s: StoreV, deleted: Seq<Seq<char>>, n: int, j: int) -> bool {
    exists|i: int|
        0 <= i < n && s.by_path.contains_key(#[trigger] deleted[i]) && s.by_path[deleted[i]] == j
}

/// The store after deleting the first `n` of `deleted` from `s`: no path index was added or
/// changed, each deleted Markdown source that is published has no post, and every store id
/// that none of them led to holds what it held.
pub open spec fn deleted_only(s: StoreV, r: StoreV, deleted: Seq<Seq<char>>, n: int) -> bool {
    &&& store_wf(r)
    &&& r.posts.len() == s.posts.len()
    &&& forall|k: Seq<char>|
        #[trigger] r.by_path.contains_key(k) ==> s.by_path.contains_key(k) && r.by_path[k]
            == s.by_path[k]
    &&& forall|i: int|
        0 <= i < n && !is_ignored(#[trigger] deleted[i], false) && is_md(deleted[i])
            ==> !r.by_path.contains_key(deleted[i])
    &&& forall|j: int|
        0 <= j < s.posts.len() && !deleted_id(s, deleted, n, j) ==> #[trigger] r.posts[j]
            == s.posts[j]
}

proof fn lemma_only_deleted(d: Seq<DiffV>)
    requires
        forall|i: int| 0 <= i < d.len() ==> (#[trigger] d[i]).1 == State::Deleted,
    ensures
        created_of(d) == Seq::<(Seq<char>, ObjectId)>::empty(),
        modified_of(d) == Seq::<(Seq<char>, ObjectId)>::empty(),
    decreases d.len(),
{
    if d.len() > 0 {
        let t = d.drop_last();
        assert forall|i: int| 0 <= i < t.len() implies (#[trigger] t[i]).1 == State::Deleted by {
            assert(t[i] == d[i]);
        }
        lemma_only_deleted(t);
        assert(d.last() == d[d.len() - 1]);
    }
}

proof fn lemma_no_created_phases(st: ApplyV, deleted: Seq<Seq<char>>, dt: TimeV, n: int)
    requires
        0 <= n <= deleted.len(),
    ensures
        phase_drafts(st, deleted, Seq::<(Seq<char>, ObjectId)>::empty(), dt, n) == st,
        phase_renames(st, deleted, Seq::<(Seq<char>, ObjectId)>::empty(), dt, n) == st,
    decreases n,
{
    let none = Seq::<(Seq<char>, ObjectId)>::empty();
    if n > 0 {
        lemma_no_created_phases(st, deleted, dt, n - 1);
        assert(created_at(none, published_of_draft(deleted[n - 1])->0) is None);
        assert(created_with_blob(none, st.hc, Option::<ObjectId>::None) is None);
        let d = deleted[n - 1];
        if get_by_path_spec(st.s, d) is Some {
            assert(created_with_blob(none, st.hc, get_by_path_spec(st.s, d)->0.object_id) is None);
        }
    }
}

proof fn lemma_phase_deletes_only(s: StoreV, deleted: Seq<Seq<char>>, n: int)
    requires
        store_wf(s),
        0 <= n <= deleted.len(),
    ensures
        ({
            let st = phase_deletes(ApplyV { s, hd: seq![], hc: seq![] }, deleted, n);
            &&& st.hd == Seq::<Seq<char>>::empty()
            &&& deleted_only(s, st.s, deleted, n)
        }),
    decreases n,
{
    let st0 = ApplyV { s, hd: seq![], hc: seq![] };
    if n == 0 {
        assert(phase_deletes(st0, deleted, 0) == st0);
    } else {
        lemma_phase_deletes_only(s, deleted, n - 1);
        let st = phase_deletes(st0, deleted, n - 1);
        let d = deleted[n - 1];
        let st2 = delete_step(st, d);
        assert(phase_deletes(st0, deleted, n) == st2);
        let r0 = st.s;
        assert(!st.hd.contains(d));
        if !is_ignored(d, false) && is_md(d) && get_by_path_spec(r0, d) is Some {
            let id = r0.by_path[d];
            lemma_remove_path_gone(r0, d);
            let r = remove_path_spec(r0, d);
            assert(st2.s == r);
            assert(s.by_path.contains_key(d) && s.by_path[d] == id);
            assert(deleted_id(s, deleted, n, id)) by {
                assert(deleted[n - 1] == d);
            }
            assert forall|j: int|
                0 <= j < s.posts.len() && !deleted_id(s, deleted, n, j) implies #[trigger] r.posts[j]
                == s.posts[j] by {
                if deleted_id(s, deleted, n - 1, j) {
                    let i = choose|i: int|
                        0 <= i < n - 1 && s.by_path.contains_key(#[trigger] deleted[i])
                            && s.by_path[deleted[i]] == j;
                    assert(deleted_id(s, deleted, n, j));
                }
                assert(j != id);
            }
            assert forall|i: int|
                0 <= i < n && !is_ignored(#[trigger] deleted[i], false) && is_md(deleted[i])
                    implies !r.by_path.contains_key(deleted[i]) by {
                if i < n - 1 {
                    assert(!r0.by_path.contains_key(deleted[i]));
                }
            }
            assert forall|k: Seq<char>| #[trigger] r.by_path.contains_key(k) implies s.by_path.contains_key(k)
                && r.by_path[k] == s.by_path[k] by {
                assert(r0.by_path.contains_key(k));
            }
        } else {
            assert(st2 == st);
            assert forall|i: int|
                0 <= i < n && !is_ignored(#[trigger] deleted[i], false) && is_md(deleted[i])
                    implies !r0.by_path.contains_key(deleted[i]) by {
                if i == n - 1 && r0.by_path.contains_key(d) {
                    assert(live(r0.posts, r0.by_path[d]));
                }
            }
            assert forall|j: int|
                0 <= j < s.posts.len() && !deleted_id(s, deleted, n, j) implies #[trigger] r0.posts[j]
                == s.posts[j] by {
                if deleted_id(s, deleted, n - 1, j) {
                    let i = choose|i: int|
                        0 <= i < n - 1 && s.by_path.contains_key(#[trigger] deleted[i])
                            && s.by_path[deleted[i]] == j;
                    assert(deleted_id(s, deleted, n, j));
                }
            }
        }
    }
}

/// A commit that only deletes files drops the post of each deleted Markdown source that is
/// published, and nothing else: no path comes to lead elsewhere, and every stored post that no
/// deleted path led to stays as it was.
pub proof fn law_deletions_remove_only_their_posts(s: StoreV, diff: Seq<DiffV>, dt: TimeV)
    requires
        store_wf(s),
        forall|i: int| 0 <= i < diff.len() ==> (#[trigger] diff[i]).1 == State::Deleted,
    ensures
        deleted_only(
            s,
            apply_diff_spec(s, diff, dt),
            deleted_of(diff),
            deleted_of(diff).len() as int,
        ),
{
    lemma_only_deleted(diff);
    let deleted = deleted_of(diff);
    let none = Seq::<(Seq<char>, ObjectId)>::empty();
    let st0 = ApplyV { s, hd: seq![], hc: seq![] };
    lemma_no_created_phases(st0, deleted, dt, deleted.len() as int);
    assert(remaining_created(st0, none) =~= none) by {
        reveal(Seq::filter);
    }
    assert(pair_step(st0, deleted, none, dt) == st0);
    lemma_phase_deletes_only(s, deleted, deleted.len() as int);
    let st4 = phase_deletes(st0, deleted, deleted.len() as int);
    assert(phase_creates(st4, none, dt, 0) == st4);
    assert(phase_modifies(st4, none, dt, 0) == st4);
}

/// No stored post and no index entry uses path `p` or blob `o`.
pub open spec fn avoids(s: StoreV, p: Seq<char>, o: ObjectId) -> bool {
    &&& store_wf(s)
    &&& !s.by_path.contains_key(p)
    &&& !s.by_oid.contains_key(o)
    &&& forall|j: int|
        live(s.posts, j) ==> (#[trigger] s.posts[j])->0.path != p && s.posts[j]->0.object_id
            != Some(o)
}

proof fn lemma_upsert_avoids(s: StoreV, v: BlogPostV, p: Seq<char>, o: ObjectId)
    requires
        avoids(s, p, o),
        v.path != p,
        v.object_id != Some(o),
    ensures
        avoids(upsert_spec(s, v).0, p, o),
{
    lemma_upsert_found(s, v);
    let (s2, m) = upsert_spec(s, v);
    match post_id_for_spec(s, v.object_id, v.path) {
        Some(id) => {
            assert(live(s.posts, id));
            assert forall|j: int| live(s2.posts, j) implies (#[trigger] s2.posts[j])->0.path != p
                && s2.posts[j]->0.object_id != Some(o) by {
                if j != id {
                    assert(s2.posts[j] == s.posts[j]);
                }
            }
        },
        None => {
            assert forall|j: int| live(s2.posts, j) implies (#[trigger] s2.posts[j])->0.path != p
                && s2.posts[j]->0.object_id != Some(o) by {
                if j < s.posts.len() {
                    assert(s2.posts[j] == s.posts[j]);
                }
            }
        },
    }
}

proof fn lemma_update_avoids(s: StoreV, id: int, u: UpdV, p: Seq<char>, o: ObjectId)
    requires
        avoids(s, p, o),
        live(s.posts, id),
        u.path != Some(p),
        u.object_id != Some(o),
    ensures
        avoids(update_spec(s, id, u).0, p, o),
{
    lemma_update_found(s, id, u);
    let s2 = update_spec(s, id, u).0;
    assert forall|j: int| live(s2.posts, j) implies (#[trigger] s2.posts[j])->0.path != p
        && s2.posts[j]->0.object_id != Some(o) by {
        if j != id {
            assert(s2.posts[j] == s.posts[j]);
        }
    }
}

proof fn lemma_update_oid_avoids(s: StoreV, oid: ObjectId, u: UpdV, p: Seq<char>, o: ObjectId)
    requires
        avoids(s, p, o),
        u.path != Some(p),
        u.object_id != Some(o),
    ensures
        avoids(update_oid_spec(s, oid, u), p, o),
{
    if s.by_oid.contains_key(oid) {
        lemma_update_avoids(s, s.by_oid[oid], u, p, o);
    }
}

proof fn lemma_try_set_pub_avoids(s: StoreV, path: Seq<char>, d: TimeV, p: Seq<char>, o: ObjectId)
    requires
        avoids(s, p, o),
    ensures
        avoids(try_set_pub_spec(s, path, d), p, o),
{
    if get_by_path_spec(s, path) is Some && s.by_path.contains_key(path) {
        lemma_update_avoids(s, s.by_path[path], publication_update(d), p, o);
    }
}

proof fn lemma_register_avoids(s: StoreV, o2: ObjectId, p2: Seq<char>, dt: TimeV, p: Seq<char>, o: ObjectId)
    requires
        avoids(s, p, o),
        p2 != p,
        o2 != o,
    ensures
        avoids(register_spec(s, o2, p2, dt).0, p, o),
{
    let base = match either(get_by_oid_spec(s, o2), get_by_path_spec(s, p2)) {
        Some(q) => q,
        None => defaults_v(p2, dt),
    };
    lemma_upsert_avoids(s, relocated(base, o2, p2, dt), p, o);
}

proof fn lemma_create_step_avoids(st: ApplyV, c: (Seq<char>, ObjectId), dt: TimeV, p: Seq<char>, o: ObjectId)
    requires
        avoids(st.s, p, o),
        is_ignored(p, false) || !is_md(p),
        c.1 == o ==> c.0 == p,
    ensures
        avoids(create_step(st, c, dt).s, p, o),
{
    let (p2, o2) = c;
    if !(st.hc.contains(p2) || is_ignored(p2, false) || !is_md(p2)) {
        assert(p2 != p);
        assert(o2 != o);
        if get_by_oid_spec(st.s, o2) is Some && get_by_oid_spec(st.s, o2)->0.path != p2 {
            let existing = get_by_oid_spec(st.s, o2)->0;
            lemma_try_set_pub_avoids(st.s, existing.path, dt, p, o);
            let s1 = try_set_pub_spec(st.s, existing.path, dt);
            lemma_update_oid_avoids(s1, o2, touch_update(dt), p, o);
        } else {
            lemma_register_avoids(st.s, o2, p2, dt, p, o);
            let s1 = register_spec(st.s, o2, p2, dt).0;
            lemma_try_set_pub_avoids(s1, p2, dt, p, o);
            let s2 = try_set_pub_spec(s1, p2, dt);
            lemma_update_oid_avoids(s2, o2, move_update(p2, dt), p, o);
        }
    }
}

proof fn lemma_modify_step_avoids(st: ApplyV, c: (Seq<char>, ObjectId), dt: TimeV, p: Seq<char>, o: ObjectId)
    requires
        avoids(st.s, p, o),
        is_ignored(p, false) || !is_md(p),
        c.1 == o ==> c.0 == p,
    ensures
        avoids(modify_step(st, c, dt).s, p, o),
{
    let (p2, o2) = c;
    if !(is_ignored(p2, false) || !is_md(p2)) {
        lemma_register_avoids(st.s, o2, p2, dt, p, o);
        let s1 = register_spec(st.s, o2, p2, dt).0;
        lemma_update_oid_avoids(s1, o2, move_update(p2, dt), p, o);
    }
}

proof fn lemma_phase_creates_avoids(
    st: ApplyV,
    created: Seq<(Seq<char>, ObjectId)>,
    dt: TimeV,
    n: int,
    p: Seq<char>,
    o: ObjectId,
)
    requires
        avoids(st.s, p, o),
        is_ignored(p, false) || !is_md(p),
        n <= created.len(),
        forall|i: int| 0 <= i < created.len() && (#[trigger] created[i]).1 == o ==> created[i].0 == p,
    ensures
        avoids(phase_creates(st, created, dt, n).s, p, o),
    decreases n,
{
    if n > 0 {
        lemma_phase_creates_avoids(st, created, dt, n - 1, p, o);
        lemma_create_step_avoids(phase_creates(st, created, dt, n - 1), created[n - 1], dt, p, o);
    }
}

proof fn lemma_phase_modifies_avoids(
    st: ApplyV,
    modified: Seq<(Seq<char>, ObjectId)>,
    dt: TimeV,
    n: int,
    p: Seq<char>,
    o: ObjectId,
)
    requires
        avoids(st.s, p, o),
        is_ignored(p, false) || !is_md(p),
        n <= modified.len(),
        forall|i: int| 0 <= i < modified.len() && (#[trigger] modified[i]).1 == o ==> modified[i].0 == p,
    ensures
        avoids(phase_modifies(st, modified, dt, n).s, p, o),
    decreases n,
{
    if n > 0 {
        lemma_phase_modifies_avoids(st, modified, dt, n - 1, p, o);
        lemma_modify_step_avoids(phase_modifies(st, modified, dt, n - 1), modified[n - 1], dt, p, o);
    }
}

proof fn lemma_blob_entries_from_diff(d: Seq<DiffV>, o: ObjectId, p: Seq<char>)
    requires
        forall|i: int| 0 <= i < d.len() && (#[trigger] d[i]).2 == Some(o) ==> d[i].0 == p,
    ensures
        forall|i: int|
            0 <= i < created_of(d).len() && (#[trigger] created_of(d)[i]).1 == o ==> created_of(
                d,
            )[i].0 == p,
        forall|i: int|
            0 <= i < modified_of(d).len() && (#[trigger] modified_of(d)[i]).1 == o
                ==> modified_of(d)[i].0 == p,
    decreases d.len(),
{
    if d.len() > 0 {
        let t = d.drop_last();
        assert forall|i: int| 0 <= i < t.len() && (#[trigger] t[i]).2 == Some(o) implies t[i].0
            == p by {
            assert(t[i] == d[i]);
        }
        lemma_blob_entries_from_diff(t, o, p);
        assert(d.last() == d[d.len() - 1]);
        let c = created_of(d);
        let ct = created_of(t);
        assert forall|i: int| 0 <= i < c.len() && (#[trigger] c[i]).1 == o implies c[i].0 == p by {
            if i < ct.len() {
                assert(c[i] == ct[i]);
            }
        }
        let m = modified_of(d);
        let mt = modified_of(t);
        assert forall|i: int| 0 <= i < m.len() && (#[trigger] m[i]).1 == o implies m[i].0 == p by {
            if i < mt.len() {
                assert(m[i] == mt[i]);
            }
        }
    }
}

/// Ignored and non-Markdown files never become posts: in a commit that deletes nothing, a file
/// that is ignored or not Markdown, whose path and blob no stored post and no other entry of
/// the diff uses, is found neither at its path nor by its blob afterwards.
pub proof fn law_unpublishable_files_stay_out(s: StoreV, diff: Seq<DiffV>, p: Seq<char>, o: ObjectId, dt: TimeV)
    requires
        avoids(s, p, o),
        is_ignored(p, false) || !is_md(p),
        forall|i: int| 0 <= i < diff.len() ==> (#[trigger] diff[i]).1 != State::Deleted,
        forall|i: int| 0 <= i < diff.len() && (#[trigger] diff[i]).2 == Some(o) ==> diff[i].0 == p,
    ensures
        ({
            let r = apply_diff_spec(s, diff, dt);
            &&& get_by_path_spec(r, p) is None
            &&& get_by_oid_spec(r, o) is None
            &&& avoids(r, p, o)
        }),
{
    lemma_no_deleted(diff);
    lemma_blob_entries_from_diff(diff, o, p);
    let deleted = deleted_of(diff);
    let created = created_of(diff);
    let st0 = ApplyV { s, hd: seq![], hc: seq![] };
    assert(phase_drafts(st0, deleted, created, dt, 0) == st0);
    assert(phase_renames(st0, deleted, created, dt, 0) == st0);
    assert(remaining_deleted(st0, deleted) =~= Seq::<Seq<char>>::empty()) by {
        reveal(Seq::filter);
    }
    assert(pair_step(st0, deleted, created, dt) == st0);
    assert(phase_deletes(st0, deleted, 0) == st0);
    lemma_phase_creates_avoids(st0, created, dt, created.len() as int, p, o);
    let st5 = phase_creates(st0, created, dt, created.len() as int);
    lemma_phase_modifies_avoids(st5, modified_of(diff), dt, modified_of(diff).len() as int, p, o);
}

proof fn lemma_no_deleted(d: Seq<DiffV>)
    requires
        forall|i: int| 0 <= i < d.len() ==> (#[trigger] d[i]).1 != State::Deleted,
    ensures
        deleted_of(d) == Seq::<Seq<char>>::empty(),
    decreases d.len(),
{
    if d.len() > 0 {
        let t = d.drop_last();
        assert forall|i: int| 0 <= i < t.len() implies (#[trigger] t[i]).1 != State::Deleted by {
            assert(t[i] == d[i]);
        }
        lemma_no_deleted(t);
        assert(d.last() == d[d.len() - 1]);
    }
}

/// The source is one whose changes reach the store: Markdown, not ignored.
pub open spec fn publishable(p: Seq<char>) -> bool {
    !is_ignored(p, false) && is_md(p)
}

/// No two modifications name the same path or the same blob.
pub open spec fn mods_distinct(m: Seq<(Seq<char>, ObjectId)>) -> bool {
    forall|i: int, j: int|
        0 <= i < j < m.len() ==> (#[trigger] m[i]).0 != (#[trigger] m[j]).0 && m[i].1 != m[j].1
}

/// Each modification from the `n`-th on: its blob is stored at no other path.
pub open spec fn mods_pending(s: StoreV, m: Seq<(Seq<char>, ObjectId)>, n: int) -> bool {
    forall|j: int|
        n <= j < m.len() ==> (get_by_oid_spec(s, (#[trigger] m[j]).1) matches Some(q) ==> q.path
            == m[j].0)
}

/// Each of the first `n` modifications of a published source is stored at its path, with its
/// blob and the commit time.
pub open spec fn mods_done(s: StoreV, m: Seq<(Seq<char>, ObjectId)>, n: int, dt: TimeV) -> bool {
    forall|i: int|
        0 <= i < n && publishable((#[trigger] m[i]).0) ==> (get_by_path_spec(s, m[i].0) matches Some(
            q,
        ) && q.object_id == Some(m[i].1) && q.last_updated == dt)
}

proof fn lemma_modify_step_updates(
    st: ApplyV,
    m: Seq<(Seq<char>, ObjectId)>,
    n: int,
    dt: TimeV,
)
    requires
        store_wf(st.s),
        mods_distinct(m),
        0 <= n < m.len(),
        mods_pending(st.s, m, n),
        mods_done(st.s, m, n, dt),
    ensures
        ({
            let s2 = modify_step(st, m[n], dt).s;
            &&& store_wf(s2)
            &&& mods_pending(s2, m, n + 1)
            &&& mods_done(s2, m, n + 1, dt)
        }),
{
    let s = st.s;
    let (p, o) = m[n];
    if publishable(p) {
        let base = match either(get_by_oid_spec(s, o), get_by_path_spec(s, p)) {
            Some(q) => q,
            None => defaults_v(p, dt),
        };
        let rel = relocated(base, o, p, dt);
        let post = BlogPostV { section: section_of(rel.path), ..rel };
        let (s1, mg) = upsert_spec(s, rel);
        assert(register_spec(s, o, p, dt).0 == s1);
        let own = post_id_for_spec(s, Some(o), p);
        let id: int = match own {
            Some(x) => x,
            None => s.posts.len() as int,
        };
        match own {
            Some(x) => {
                assert(live(s.posts, x));
                let prev = s.posts[x]->0;
                assert(prev.path == p);
                assert(mg == merge_spec(prev, post));
                lemma_reindex_wf(s, x, prev, mg);
            },
            None => {
                assert(mg == post);
            },
        }
        assert(mg.path == p && mg.object_id == Some(o));
        assert(s1.posts == s.posts.update(id, Some(mg)) || s1.posts == s.posts.push(Some(mg)));
        assert(store_wf(s1)) by {
            assert forall|k: Seq<char>| #[trigger] s1.by_path.contains_key(k) implies live(
                s1.posts,
                s1.by_path[k],
            ) && s1.posts[s1.by_path[k]]->0.path == k by {
                if own is None && k != p {
                    assert(s.by_path.contains_key(k));
                }
            }
            assert forall|oo: ObjectId| #[trigger] s1.by_oid.contains_key(oo) implies live(
                s1.posts,
                s1.by_oid[oo],
            ) && s1.posts[s1.by_oid[oo]]->0.object_id == Some(oo) by {
                if own is None && oo != o {
                    assert(s.by_oid.contains_key(oo));
                }
            }
        }
        assert(s1.by_oid.contains_key(o) && s1.by_oid[o] == id);
        assert(s1.posts[id] == Some(mg));
        let u = move_update(p, dt);
        let cur = applied(mg, u);
        lemma_reindex_wf(s1, id, mg, cur);
        let s2 = update_oid_spec(s1, o, u);
        assert(s2 == reindex_spec(StoreV { posts: s1.posts.update(id, Some(cur)), ..s1 }, id, mg, cur));
        assert(cur.path == p && cur.object_id == Some(o) && cur.last_updated == dt);
        assert(modify_step(st, m[n], dt).s == s2);
        // other posts are untouched
        assert forall|j: int| j != id && 0 <= j < s.posts.len() implies #[trigger] s2.posts[j]
            == s.posts[j] by {
        }
        assert(store_wf(s2));
        assert forall|i: int|
            0 <= i < n + 1 && publishable((#[trigger] m[i]).0) implies (get_by_path_spec(
            s2,
            m[i].0,
        ) matches Some(q) && q.object_id == Some(m[i].1) && q.last_updated == dt) by {
            if i < n {
                let pi = m[i].0;
                assert(pi != p);
                assert(s.by_path.contains_key(pi));
                let idi = s.by_path[pi];
                assert(s.posts[idi]->0.path == pi);
                assert(idi != id) by {
                    if own is Some {
                        assert(s.posts[id]->0.path == p);
                    }
                }
                assert(s1.by_path.contains_key(pi) && s1.by_path[pi] == idi);
                assert(s2.by_path.contains_key(pi) && s2.by_path[pi] == idi);
            }
        }
        assert forall|j: int| n + 1 <= j < m.len() implies (get_by_oid_spec(
            s2,
            (#[trigger] m[j]).1,
        ) matches Some(q) ==> q.path == m[j].0) by {
            let oj = m[j].1;
            assert(oj != o);
            if s2.by_oid.contains_key(oj) {
                assert(s1.by_oid.contains_key(oj) && s2.by_oid[oj] == s1.by_oid[oj]);
                assert(s.by_oid.contains_key(oj) && s1.by_oid[oj] == s.by_oid[oj]) by {
                    if own is None {
                        assert(s1.by_oid[oj] == s.by_oid[oj]);
                    }
                }
                let idj = s.by_oid[oj];
                assert(s2.posts[idj]->0.object_id == Some(oj));
                assert(idj != id);
                assert(mods_pending(s, m, n));
                assert(get_by_oid_spec(s, m[j].1) == Some(s.posts[idj]->0));
            }
        }
    } else {
        assert(modify_step(st, m[n], dt).s == s);
        assert forall|i: int|
            0 <= i < n + 1 && publishable((#[trigger] m[i]).0) implies (get_by_path_spec(
            s,
            m[i].0,
        ) matches Some(q) && q.object_id == Some(m[i].1) && q.last_updated == dt) by {
            assert(i < n);
        }
    }
}

proof fn lemma_phase_modifies_updates(
    st: ApplyV,
    m: Seq<(Seq<char>, ObjectId)>,
    n: int,
    dt: TimeV,
)
    requires
        store_wf(st.s),
        mods_distinct(m),
        0 <= n <= m.len(),
        mods_pending(st.s, m, 0),
    ensures
        ({
            let s2 = phase_modifies(st, m, dt, n).s;
            &&& store_wf(s2)
            &&& mods_pending(s2, m, n)
            &&& mods_done(s2, m, n, dt)
        }),
    decreases n,
{
    if n > 0 {
        lemma_phase_modifies_updates(st, m, n - 1, dt);
        lemma_modify_step_updates(phase_modifies(st, m, dt, n - 1), m, n - 1, dt);
    }
}

proof fn lemma_modified_list(d: Seq<DiffV>)
    requires
        forall|i: int| 0 <= i < d.len() ==> (#[trigger] d[i]).1 == State::Modified && d[i].2 is Some,
    ensures
        modified_of(d) == Seq::new(d.len(), |i: int| (d[i].0, d[i].2->0)),
    decreases d.len(),
{
    if d.len() > 0 {
        let t = d.drop_last();
        assert forall|i: int| 0 <= i < t.len() implies (#[trigger] t[i]).1 == State::Modified
            && t[i].2 is Some by {
            assert(t[i] == d[i]);
        }
        lemma_modified_list(t);
        assert(d.last() == d[d.len() - 1]);
        assert(modified_of(d) =~= Seq::new(d.len(), |i: int| (d[i].0, d[i].2->0)));
    }
}

/// A commit of modifications, each to its own path with its own blob, where no blob is
/// already stored at another path, updates every modified published source at once: each is
/// found at its path with its new blob and the commit time as last update. The store's indexes
/// lead to posts with the indexed path and blob, as every store keeps them.
pub proof fn law_modifications_update_every_post(s: StoreV, diff: Seq<DiffV>, dt: TimeV)
    requires
        store_wf(s),
        forall|i: int|
            0 <= i < diff.len() ==> (#[trigger] diff[i]).1 == State::Modified && diff[i].2 is Some,
        forall|i: int, j: int|
            0 <= i < j < diff.len() ==> (#[trigger] diff[i]).0 != (#[trigger] diff[j]).0
                && diff[i].2 != diff[j].2,
        forall|i: int|
            0 <= i < diff.len() ==> (get_by_oid_spec(s, (#[trigger] diff[i]).2->0) matches Some(q)
                ==> q.path == diff[i].0),
    ensures
        ({
            let r = apply_diff_spec(s, diff, dt);
            &&& store_wf(r)
            &&& forall|i: int|
                0 <= i < diff.len() && publishable((#[trigger] diff[i]).0) ==> (get_by_path_spec(
                    r,
                    diff[i].0,
                ) matches Some(q) && q.object_id == diff[i].2 && q.last_updated == dt)
        }),
{
    lemma_only_modified(diff);
    lemma_modified_list(diff);
    let m = modified_of(diff);
    assert forall|i: int, j: int| 0 <= i < j < m.len() implies (#[trigger] m[i]).0 != (
    #[trigger] m[j]).0 && m[i].1 != m[j].1 by {
        assert(m[i] == (diff[i].0, diff[i].2->0));
        assert(m[j] == (diff[j].0, diff[j].2->0));
    }
    assert forall|j: int| 0 <= j < m.len() implies (get_by_oid_spec(s, (#[trigger] m[j]).1) matches Some(q)
        ==> q.path == m[j].0) by {
        assert(m[j] == (diff[j].0, diff[j].2->0));
    }
    let st0 = ApplyV { s, hd: seq![], hc: seq![] };
    let none = Seq::<(Seq<char>, ObjectId)>::empty();
    lemma_no_deletes(st0, none, dt);
    assert(phase_creates(st0, none, dt, 0) == st0);
    lemma_phase_modifies_updates(st0, m, m.len() as int, dt);
    let r = apply_diff_spec(s, diff, dt);
    assert forall|i: int| 0 <= i < diff.len() && publishable((#[trigger] diff[i]).0) implies (
    get_by_path_spec(r, diff[i].0) matches Some(q) && q.object_id == diff[i].2 && q.last_updated
        == dt) by {
        assert(m[i] == (diff[i].0, diff[i].2->0));
    }
}

proof fn lemma_last_named_found(es: Seq<TreeEntry>, k: int)
    requires
        0 <= k < es.len(),
    ensures
        last_named(es, es[k].filename@) is Some,
    decreases es.len(),
{
    if k < es.len() - 1 && es[es.len() - 1].filename@ != es[k].filename@ {
        let t = es.subrange(0, es.len() - 1);
        assert(t[k] == es[k]);
        lemma_last_named_found(t, k);
    }
}

proof fn lemma_both_sides_same(base: Seq<char>, es: Seq<TreeEntry>, n: int)
    ensures
        both_sides(base, es, es, n) == Seq::<DiffV>::empty(),
    decreases n,
{
    if n > 0 && n <= es.len() {
        lemma_both_sides_same(base, es, n - 1);
    }
}

proof fn lemma_right_only_same(base: Seq<char>, es: Seq<TreeEntry>, n: int)
    ensures
        right_only(base, es, es, n) == Seq::<DiffV>::empty(),
    decreases n,
{
    if n > 0 && n <= es.len() {
        lemma_right_only_same(base, es, n - 1);
        lemma_last_named_found(es, n - 1);
    }
}

/// Every entry of a diff carries a blob exactly when its file is not deleted.
pub open spec fn blob_paired(v: Seq<DiffV>) -> bool {
    forall|i: int| 0 <= i < v.len() ==> ((#[trigger] v[i]).1 == State::Deleted <==> v[i].2 is None)
}

proof fn lemma_paired_cat(a: Seq<DiffV>, b: Seq<DiffV>)
    requires
        blob_paired(a),
        blob_paired(b),
    ensures
        blob_paired(a + b),
{
    assert forall|i: int| 0 <= i < (a + b).len() implies ((#[trigger] (a + b)[i]).1
        == State::Deleted <==> (a + b)[i].2 is None) by {
        if i >= a.len() {
            assert((a + b)[i] == b[i - a.len()]);
        } else {
            assert((a + b)[i] == a[i]);
        }
    }
}

proof fn lemma_paired_push(a: Seq<DiffV>, d: DiffV)
    requires
        blob_paired(a),
        d.1 == State::Deleted <==> d.2 is None,
    ensures
        blob_paired(a.push(d)),
{
    assert forall|i: int| 0 <= i < a.push(d).len() implies ((#[trigger] a.push(d)[i]).1
        == State::Deleted <==> a.push(d)[i].2 is None) by {
        if i < a.len() {
            assert(a.push(d)[i] == a[i]);
        }
    }
}

proof fn lemma_one_side_paired(base: Seq<char>, es: Seq<TreeEntry>, n: int, state: State)
    requires
        state == State::Created || state == State::Deleted,
    ensures
        blob_paired(one_side(base, es, n, state)),
    decreases es, n,
{
    if 0 < n <= es.len() {
        let e = es[n - 1];
        lemma_one_side_paired(base, es, n - 1, state);
        let prev = one_side(base, es, n - 1, state);
        let full = std_join(base, e.filename@);
        if e.is_tree {
            match e.subtree {
                Some(t) => {
                    assert(decreases_to!(es => t.entries@));
                    lemma_one_side_paired(full, t.entries@, t.entries@.len() as int, state);
                    lemma_paired_cat(prev, one_side(full, t.entries@, t.entries@.len() as int, state));
                },
                None => {},
            }
        } else {
            lemma_paired_push(prev, one_side_blob(full, e.oid, state));
        }
    } else {
        assert(one_side(base, es, n, state) =~= Seq::<DiffV>::empty());
    }
}

proof fn lemma_sub_side_paired(full: Seq<char>, sub: Option<Box<GitTree>>, state: State)
    requires
        state == State::Created || state == State::Deleted,
    ensures
        blob_paired(sub_side(full, sub, state)),
{
    match sub {
        Some(t) => lemma_one_side_paired(full, t.entries@, t.entries@.len() as int, state),
        None => {
            assert(sub_side(full, sub, state) =~= Seq::<DiffV>::empty());
        },
    }
}

proof fn lemma_right_only_paired(base: Seq<char>, lall: Seq<TreeEntry>, rall: Seq<TreeEntry>, n: int)
    ensures
        blob_paired(right_only(base, lall, rall, n)),
    decreases n,
{
    if 0 < n <= rall.len() {
        let k = n - 1;
        let r = rall[k];
        lemma_right_only_paired(base, lall, rall, k);
        let prev = right_only(base, lall, rall, k);
        if !(last_named(rall, r.filename@) != Some(k) || last_named(lall, r.filename@) is Some) {
            let full = std_join(base, r.filename@);
            if r.is_tree {
                lemma_sub_side_paired(full, r.subtree, State::Created);
                lemma_paired_cat(prev, sub_side(full, r.subtree, State::Created));
            } else {
                lemma_paired_push(prev, (full, State::Created, Some(r.oid)));
            }
        }
    } else {
        assert(right_only(base, lall, rall, n) =~= Seq::<DiffV>::empty());
    }
}

proof fn lemma_both_sides_paired(base: Seq<char>, lall: Seq<TreeEntry>, rall: Seq<TreeEntry>, n: int)
    ensures
        blob_paired(both_sides(base, lall, rall, n)),
    decreases lall, n,
{
    if 0 < n <= lall.len() {
        let i = n - 1;
        let l = lall[i];
        lemma_both_sides_paired(base, lall, rall, i);
        let prev = both_sides(base, lall, rall, i);
        if last_named(lall, l.filename@) == Some(i) {
            let full = std_join(base, l.filename@);
            match last_named(rall, l.filename@) {
                None => if l.is_tree {
                    lemma_sub_side_paired(full, l.subtree, State::Deleted);
                    lemma_paired_cat(prev, sub_side(full, l.subtree, State::Deleted));
                } else {
                    lemma_paired_push(prev, (full, State::Deleted, None));
                },
                Some(k) => {
                    let r = rall[k];
                    if l.oid == r.oid {
                    } else if l.is_tree && r.is_tree {
                        match (l.subtree, r.subtree) {
                            (Some(a), Some(b)) => {
                                assert(decreases_to!(lall => a.entries@));
                                lemma_both_sides_paired(full, a.entries@, b.entries@, a.entries@.len() as int);
                                lemma_right_only_paired(full, a.entries@, b.entries@, b.entries@.len() as int);
                                let x = both_sides(full, a.entries@, b.entries@, a.entries@.len() as int);
                                let y = right_only(full, a.entries@, b.entries@, b.entries@.len() as int);
                                lemma_paired_cat(prev, x);
                                lemma_paired_cat(prev + x, y);
                            },
                            (Some(a), None) => {
                                lemma_one_side_paired(full, a.entries@, a.entries@.len() as int, State::Deleted);
                                lemma_paired_cat(prev, one_side(full, a.entries@, a.entries@.len() as int, State::Deleted));
                            },
                            (None, Some(b)) => {
                                lemma_one_side_paired(full, b.entries@, b.entries@.len() as int, State::Created);
                                lemma_paired_cat(prev, one_side(full, b.entries@, b.entries@.len() as int, State::Created));
                            },
                            (None, None) => {},
                        }
                    } else if !l.is_tree && !r.is_tree {
                        lemma_paired_push(prev, (full, State::Modified, Some(r.oid)));
                    } else if l.is_tree {
                        lemma_sub_side_paired(full, l.subtree, State::Deleted);
                        lemma_paired_cat(prev, sub_side(full, l.subtree, State::Deleted));
                        lemma_paired_push(prev + sub_side(full, l.subtree, State::Deleted), (full, State::Created, Some(r.oid)));
                    } else {
                        lemma_paired_push(prev, (full, State::Deleted, None));
                        lemma_sub_side_paired(full, r.subtree, State::Created);
                        lemma_paired_cat(prev.push((full, State::Deleted, None)), sub_side(full, r.subtree, State::Created));
                    }
                },
            }
        }
    } else {
        assert(both_sides(base, lall, rall, n) =~= Seq::<DiffV>::empty());
    }
}

/// In the diff of two trees, an entry names a blob exactly when its file is not deleted: a
/// created or modified file comes with its new blob, a deleted one with none.
pub proof fn law_tree_diff_blobs_paired(from: GitTree, to: GitTree)
    ensures
        blob_paired(tree_diff_spec(from, to)),
{
    let l = from.entries@;
    let r = to.entries@;
    lemma_both_sides_paired(seq![], l, r, l.len() as int);
    lemma_right_only_paired(seq![], l, r, r.len() as int);
    lemma_paired_cat(both_sides(seq![], l, r, l.len() as int), right_only(seq![], l, r, r.len() as int));
}

/// Created and Deleted exchanged; Modified kept.
pub open spec fn swap_state(st: State) -> State {
    match st {
        State::Created => State::Deleted,
        State::Deleted => State::Created,
        State::Modified => State::Modified,
    }
}

/// The diff reports path `p` with state `st`.
pub open spec fn has_change(v: Seq<DiffV>, p: Seq<char>, st: State) -> bool {
    exists|i: int| 0 <= i < v.len() && (#[trigger] v[i]).0 == p && v[i].1 == st
}

proof fn lemma_has_change_cat(a: Seq<DiffV>, b: Seq<DiffV>, p: Seq<char>, st: State)
    ensures
        has_change(a + b, p, st) <==> (has_change(a, p, st) || has_change(b, p, st)),
{
    if has_change(a + b, p, st) {
        let i = choose|i: int| 0 <= i < (a + b).len() && (#[trigger] (a + b)[i]).0 == p && (a
            + b)[i].1 == st;
        if i < a.len() {
            assert(a[i] == (a + b)[i]);
        } else {
            assert(b[i - a.len()] == (a + b)[i]);
        }
    }
    if has_change(a, p, st) {
        let i = choose|i: int| 0 <= i < a.len() && (#[trigger] a[i]).0 == p && a[i].1 == st;
        assert((a + b)[i] == a[i]);
    }
    if has_change(b, p, st) {
        let i = choose|i: int| 0 <= i < b.len() && (#[trigger] b[i]).0 == p && b[i].1 == st;
        assert((a + b)[a.len() + i] == b[i]);
    }
}

proof fn lemma_has_change_one(x: DiffV, p: Seq<char>, st: State)
    ensures
        has_change(seq![x], p, st) <==> (x.0 == p && x.1 == st),
{
    if x.0 == p && x.1 == st {
        assert(seq![x][0] == x);
    }
}

proof fn lemma_has_change_push(a: Seq<DiffV>, x: DiffV, p: Seq<char>, st: State)
    ensures
        has_change(a.push(x), p, st) <==> (has_change(a, p, st) || (x.0 == p && x.1 == st)),
{
    assert(a.push(x) == a + seq![x]);
    lemma_has_change_cat(a, seq![x], p, st);
    lemma_has_change_one(x, p, st);
}

proof fn lemma_has_change_empty(p: Seq<char>, st: State)
    ensures
        !has_change(Seq::<DiffV>::empty(), p, st),
{
}

proof fn lemma_one_side_swap(base: Seq<char>, es: Seq<TreeEntry>, n: int, p: Seq<char>, st: State)
    ensures
        has_change(one_side(base, es, n, State::Created), p, st) <==> has_change(
            one_side(base, es, n, State::Deleted),
            p,
            swap_state(st),
        ),
    decreases es, n,
{
    if 0 < n <= es.len() {
        let e = es[n - 1];
        lemma_one_side_swap(base, es, n - 1, p, st);
        let full = std_join(base, e.filename@);
        let pc = one_side(base, es, n - 1, State::Created);
        let pd = one_side(base, es, n - 1, State::Deleted);
        if e.is_tree {
            match e.subtree {
                Some(t) => {
                    assert(decreases_to!(es => t.entries@));
                    lemma_one_side_swap(full, t.entries@, t.entries@.len() as int, p, st);
                    lemma_has_change_cat(pc, one_side(full, t.entries@, t.entries@.len() as int, State::Created), p, st);
                    lemma_has_change_cat(pd, one_side(full, t.entries@, t.entries@.len() as int, State::Deleted), p, swap_state(st));
                },
                None => {},
            }
        } else {
            lemma_has_change_push(pc, one_side_blob(full, e.oid, State::Created), p, st);
            lemma_has_change_push(pd, one_side_blob(full, e.oid, State::Deleted), p, swap_state(st));
        }
    } else {
        assert(one_side(base, es, n, State::Created) =~= Seq::<DiffV>::empty());
        assert(one_side(base, es, n, State::Deleted) =~= Seq::<DiffV>::empty());
    }
}

proof fn lemma_sub_side_swap(full: Seq<char>, sub: Option<Box<GitTree>>, p: Seq<char>, st: State)
    ensures
        has_change(sub_side(full, sub, State::Created), p, st) <==> has_change(
            sub_side(full, sub, State::Deleted),
            p,
            swap_state(st),
        ),
{
    match sub {
        Some(t) => lemma_one_side_swap(full, t.entries@, t.entries@.len() as int, p, st),
        None => {
            assert(sub_side(full, sub, State::Created) =~= Seq::<DiffV>::empty());
            assert(sub_side(full, sub, State::Deleted) =~= Seq::<DiffV>::empty());
        },
    }
}

/// The changes the diff of two trees' entry lists reports.
pub open spec fn entries_diff(base: Seq<char>, lall: Seq<TreeEntry>, rall: Seq<TreeEntry>) -> Seq<
    DiffV,
> {
    both_sides(base, lall, rall, lall.len() as int) + right_only(
        base,
        lall,
        rall,
        rall.len() as int,
    )
}

/// What an entry on both sides under one name contributes.
pub open spec fn pair_change(full: Seq<char>, l: TreeEntry, r: TreeEntry) -> Seq<DiffV> {
    if l.oid == r.oid {
        seq![]
    } else if l.is_tree && r.is_tree {
        match (l.subtree, r.subtree) {
            (Some(a), Some(b)) => entries_diff(full, a.entries@, b.entries@),
            (Some(a), None) => one_side(full, a.entries@, a.entries@.len() as int, State::Deleted),
            (None, Some(b)) => one_side(full, b.entries@, b.entries@.len() as int, State::Created),
            (None, None) => seq![],
        }
    } else if !l.is_tree && !r.is_tree {
        seq![(full, State::Modified, Some(r.oid))]
    } else if l.is_tree {
        sub_side(full, l.subtree, State::Deleted).push((full, State::Created, Some(r.oid)))
    } else {
        seq![(full, State::Deleted, None)] + sub_side(full, r.subtree, State::Created)
    }
}

/// What one name contributes to the diff of two entry lists.
pub open spec fn name_change(
    base: Seq<char>,
    lall: Seq<TreeEntry>,
    rall: Seq<TreeEntry>,
    n: Seq<char>,
) -> Seq<DiffV> {
    let full = std_join(base, n);
    match (last_named(lall, n), last_named(rall, n)) {
        (Some(i), None) => if lall[i].is_tree {
            sub_side(full, lall[i].subtree, State::Deleted)
        } else {
            seq![(full, State::Deleted, None)]
        },
        (None, Some(k)) => if rall[k].is_tree {
            sub_side(full, rall[k].subtree, State::Created)
        } else {
            seq![(full, State::Created, Some(rall[k].oid))]
        },
        (Some(i), Some(k)) => pair_change(full, lall[i], rall[k]),
        (None, None) => seq![],
    }
}

proof fn lemma_last_named_props(es: Seq<TreeEntry>, n: Seq<char>)
    ensures
        last_named(es, n) matches Some(i) ==> 0 <= i < es.len() && es[i].filename@ == n,
    decreases es.len(),
{
    if es.len() > 0 && es[es.len() - 1].filename@ != n {
        let t = es.subrange(0, es.len() - 1);
        lemma_last_named_props(t, n);
        if last_named(t, n) is Some {
            let i = last_named(t, n)->0;
            assert(es[i] == t[i]);
        }
    }
}

proof fn lemma_both_sides_names(
    base: Seq<char>,
    lall: Seq<TreeEntry>,
    rall: Seq<TreeEntry>,
    n: int,
    p: Seq<char>,
    st: State,
)
    requires
        0 <= n <= lall.len(),
    ensures
        has_change(both_sides(base, lall, rall, n), p, st) <==> exists|i: int|
            0 <= i < n && last_named(lall, (#[trigger] lall[i]).filename@) == Some(i) && has_change(
                name_change(base, lall, rall, lall[i].filename@),
                p,
                st,
            ),
    decreases n,
{
    if n > 0 {
        let i = n - 1;
        let l = lall[i];
        lemma_both_sides_names(base, lall, rall, i, p, st);
        let prev = both_sides(base, lall, rall, i);
        if last_named(lall, l.filename@) == Some(i) {
            let full = std_join(base, l.filename@);
            let c = name_change(base, lall, rall, l.filename@);
            assert(both_sides(base, lall, rall, n) == prev + c) by {
                match last_named(rall, l.filename@) {
                    None => {
                        if !l.is_tree {
                            assert(prev.push((full, State::Deleted, None)) == prev + seq![(full, State::Deleted, None)]);
                        }
                    },
                    Some(k) => {
                        let r = rall[k];
                        if l.oid == r.oid {
                            assert(prev + seq![] =~= prev);
                        } else if l.is_tree && r.is_tree {
                            match (l.subtree, r.subtree) {
                                (Some(a), Some(b)) => {
                                    assert(prev + both_sides(full, a.entries@, b.entries@, a.entries@.len() as int)
                                        + right_only(full, a.entries@, b.entries@, b.entries@.len() as int)
                                        =~= prev + entries_diff(full, a.entries@, b.entries@));
                                },
                                (None, None) => {
                                    assert(prev + seq![] =~= prev);
                                },
                                _ => {},
                            }
                        } else if !l.is_tree && !r.is_tree {
                            assert(prev.push((full, State::Modified, Some(r.oid))) == prev + seq![(full, State::Modified, Some(r.oid))]);
                        } else if l.is_tree {
                            assert((prev + sub_side(full, l.subtree, State::Deleted)).push((full, State::Created, Some(r.oid)))
                                =~= prev + sub_side(full, l.subtree, State::Deleted).push((full, State::Created, Some(r.oid))));
                        } else {
                            assert(prev.push((full, State::Deleted, None)) + sub_side(full, r.subtree, State::Created)
                                =~= prev + (seq![(full, State::Deleted, None)] + sub_side(full, r.subtree, State::Created)));
                        }
                    },
                }
            }
            lemma_has_change_cat(prev, c, p, st);
        } else {
            assert(both_sides(base, lall, rall, n) == prev);
        }
        if exists|j: int|
            0 <= j < n && last_named(lall, (#[trigger] lall[j]).filename@) == Some(j) && has_change(
                name_change(base, lall, rall, lall[j].filename@),
                p,
                st,
            ) {
            let j = choose|j: int|
                0 <= j < n && last_named(lall, (#[trigger] lall[j]).filename@) == Some(j) && has_change(
                    name_change(base, lall, rall, lall[j].filename@),
                    p,
                    st,
                );
            if j < i {
                assert(exists|j2: int|
                    0 <= j2 < i && last_named(lall, (#[trigger] lall[j2]).filename@) == Some(j2)
                        && has_change(name_change(base, lall, rall, lall[j2].filename@), p, st));
            }
        }
    } else {
        assert(both_sides(base, lall, rall, n) =~= Seq::<DiffV>::empty());
    }
}

proof fn lemma_right_only_names(
    base: Seq<char>,
    lall: Seq<TreeEntry>,
    rall: Seq<TreeEntry>,
    n: int,
    p: Seq<char>,
    st: State,
)
    requires
        0 <= n <= rall.len(),
    ensures
        has_change(right_only(base, lall, rall, n), p, st) <==> exists|k: int|
            0 <= k < n && last_named(rall, (#[trigger] rall[k]).filename@) == Some(k) && last_named(
                lall,
                rall[k].filename@,
            ) is None && has_change(name_change(base, lall, rall, rall[k].filename@), p, st),
    decreases n,
{
    if n > 0 {
        let k = n - 1;
        let r = rall[k];
        lemma_right_only_names(base, lall, rall, k, p, st);
        let prev = right_only(base, lall, rall, k);
        if !(last_named(rall, r.filename@) != Some(k) || last_named(lall, r.filename@) is Some) {
            let full = std_join(base, r.filename@);
            let c = name_change(base, lall, rall, r.filename@);
            if !r.is_tree {
                assert(prev.push((full, State::Created, Some(r.oid))) == prev + c);
            }
            assert(right_only(base, lall, rall, n) == prev + c);
            lemma_has_change_cat(prev, c, p, st);
        } else {
            assert(right_only(base, lall, rall, n) == prev);
        }
        if exists|j: int|
            0 <= j < n && last_named(rall, (#[trigger] rall[j]).filename@) == Some(j) && last_named(
                lall,
                rall[j].filename@,
            ) is None && has_change(name_change(base, lall, rall, rall[j].filename@), p, st) {
            let j = choose|j: int|
                0 <= j < n && last_named(rall, (#[trigger] rall[j]).filename@) == Some(j)
                    && last_named(lall, rall[j].filename@) is None && has_change(
                    name_change(base, lall, rall, rall[j].filename@),
                    p,
                    st,
                );
            if j < k {
                assert(exists|j2: int|
                    0 <= j2 < k && last_named(rall, (#[trigger] rall[j2]).filename@) == Some(j2)
                        && last_named(lall, rall[j2].filename@) is None && has_change(
                        name_change(base, lall, rall, rall[j2].filename@),
                        p,
                        st,
                    ));
            }
        }
    } else {
        assert(right_only(base, lall, rall, n) =~= Seq::<DiffV>::empty());
    }
}

/// A change is reported exactly when some name contributes it.
proof fn lemma_entries_diff_names(
    base: Seq<char>,
    lall: Seq<TreeEntry>,
    rall: Seq<TreeEntry>,
    p: Seq<char>,
    st: State,
)
    ensures
        has_change(entries_diff(base, lall, rall), p, st) <==> exists|n: Seq<char>|
            has_change(#[trigger] name_change(base, lall, rall, n), p, st),
{
    lemma_both_sides_names(base, lall, rall, lall.len() as int, p, st);
    lemma_right_only_names(base, lall, rall, rall.len() as int, p, st);
    lemma_has_change_cat(
        both_sides(base, lall, rall, lall.len() as int),
        right_only(base, lall, rall, rall.len() as int),
        p,
        st,
    );
    if exists|n: Seq<char>| has_change(#[trigger] name_change(base, lall, rall, n), p, st) {
        let n = choose|n: Seq<char>| has_change(#[trigger] name_change(base, lall, rall, n), p, st);
        lemma_last_named_props(lall, n);
        lemma_last_named_props(rall, n);
        match last_named(lall, n) {
            Some(i) => {
                assert(lall[i].filename@ == n);
                assert(last_named(lall, lall[i].filename@) == Some(i));
            },
            None => {
                match last_named(rall, n) {
                    Some(k) => {
                        assert(rall[k].filename@ == n);
                        assert(last_named(rall, rall[k].filename@) == Some(k));
                    },
                    None => {
                        lemma_has_change_empty(p, st);
                    },
                }
            },
        }
    }
}

proof fn lemma_pair_change_swap(full: Seq<char>, l: TreeEntry, r: TreeEntry, p: Seq<char>, st: State)
    ensures
        has_change(pair_change(full, l, r), p, st) <==> has_change(
            pair_change(full, r, l),
            p,
            swap_state(st),
        ),
    decreases l,
{
    if l.oid == r.oid {
    } else if l.is_tree && r.is_tree {
        match (l.subtree, r.subtree) {
            (Some(a), Some(b)) => {
                assert(decreases_to!(l => a.entries@));
                lemma_entries_diff_swap(full, a.entries@, b.entries@, p, st);
            },
            (Some(a), None) => {
                lemma_one_side_swap(full, a.entries@, a.entries@.len() as int, p, swap_state(st));
                assert(swap_state(swap_state(st)) == st);
            },
            (None, Some(b)) => {
                lemma_one_side_swap(full, b.entries@, b.entries@.len() as int, p, st);
            },
            (None, None) => {},
        }
    } else if !l.is_tree && !r.is_tree {
        lemma_has_change_one((full, State::Modified, Some(r.oid)), p, st);
        lemma_has_change_one((full, State::Modified, Some(l.oid)), p, swap_state(st));
    } else if l.is_tree {
        lemma_has_change_push(sub_side(full, l.subtree, State::Deleted), (full, State::Created, Some(r.oid)), p, st);
        lemma_has_change_cat(seq![(full, State::Deleted, None)], sub_side(full, l.subtree, State::Created), p, swap_state(st));
        lemma_has_change_one((full, State::Deleted, None), p, swap_state(st));
        lemma_sub_side_swap(full, l.subtree, p, swap_state(st));
        assert(swap_state(swap_state(st)) == st);
    } else {
        lemma_has_change_push(sub_side(full, r.subtree, State::Deleted), (full, State::Created, Some(l.oid)), p, swap_state(st));
        lemma_has_change_cat(seq![(full, State::Deleted, None)], sub_side(full, r.subtree, State::Created), p, st);
        lemma_has_change_one((full, State::Deleted, None), p, st);
        lemma_sub_side_swap(full, r.subtree, p, st);
    }
}

proof fn lemma_name_change_swap(
    base: Seq<char>,
    lall: Seq<TreeEntry>,
    rall: Seq<TreeEntry>,
    n: Seq<char>,
    p: Seq<char>,
    st: State,
)
    ensures
        has_change(name_change(base, lall, rall, n), p, st) <==> has_change(
            name_change(base, rall, lall, n),
            p,
            swap_state(st),
        ),
    decreases lall, 0int,
{
    let full = std_join(base, n);
    lemma_last_named_props(lall, n);
    lemma_last_named_props(rall, n);
    assert(swap_state(swap_state(st)) == st);
    match (last_named(lall, n), last_named(rall, n)) {
        (Some(i), None) => {
            if lall[i].is_tree {
                lemma_sub_side_swap(full, lall[i].subtree, p, swap_state(st));
            } else {
                lemma_has_change_one((full, State::Deleted, None), p, st);
                lemma_has_change_one((full, State::Created, Some(lall[i].oid)), p, swap_state(st));
            }
        },
        (None, Some(k)) => {
            if rall[k].is_tree {
                lemma_sub_side_swap(full, rall[k].subtree, p, st);
            } else {
                lemma_has_change_one((full, State::Created, Some(rall[k].oid)), p, st);
                lemma_has_change_one((full, State::Deleted, None), p, swap_state(st));
            }
        },
        (Some(i), Some(k)) => {
            assert(decreases_to!(lall => lall[i]));
            lemma_pair_change_swap(full, lall[i], rall[k], p, st);
        },
        (None, None) => {},
    }
}

proof fn lemma_entries_diff_swap(
    base: Seq<char>,
    lall: Seq<TreeEntry>,
    rall: Seq<TreeEntry>,
    p: Seq<char>,
    st: State,
)
    ensures
        has_change(entries_diff(base, lall, rall), p, st) <==> has_change(
            entries_diff(base, rall, lall),
            p,
            swap_state(st),
        ),
    decreases lall, 1int,
{
    lemma_entries_diff_names(base, lall, rall, p, st);
    lemma_entries_diff_names(base, rall, lall, p, swap_state(st));
    if has_change(entries_diff(base, lall, rall), p, st) {
        let n = choose|n: Seq<char>| has_change(#[trigger] name_change(base, lall, rall, n), p, st);
        lemma_name_change_swap(base, lall, rall, n, p, st);
    }
    if has_change(entries_diff(base, rall, lall), p, swap_state(st)) {
        let n = choose|n: Seq<char>|
            has_change(#[trigger] name_change(base, rall, lall, n), p, swap_state(st));
        lemma_name_change_swap(base, lall, rall, n, p, st);
    }
}

/// Comparing two trees the other way round reports the same paths, with Created and Deleted
/// exchanged and Modified kept.
pub proof fn law_tree_diff_swaps_sides(from: GitTree, to: GitTree, p: Seq<char>, st: State)
    ensures
        has_change(tree_diff_spec(from, to), p, st) <==> has_change(
            tree_diff_spec(to, from),
            p,
            swap_state(st),
        ),
{
    lemma_entries_diff_swap(seq![], from.entries@, to.entries@, p, st);
}

/// A tree compared with itself shows no change.
pub proof fn law_tree_diff_of_same_tree_is_empty(t: GitTree)
    ensures
        tree_diff_spec(t, t) == Seq::<DiffV>::empty(),
{
    lemma_both_sides_same(seq![], t.entries@, t.entries@.len() as int);
    lemma_right_only_same(seq![], t.entries@, t.entries@.len() as int);
    assert(tree_diff_spec(t, t) =~= Seq::<DiffV>::empty());
}


/// A blob to fetch and where it goes.
#[derive(Debug, Clone)]
pub struct FileBlob {
    pub file_path: String,
    pub oid: ObjectId,
}

pub open spec fn blob_views(v: Seq<FileBlob>) -> Seq<(Seq<char>, ObjectId)> {
    Seq::new(v.len(), |i: int| (v[i].file_path@, v[i].oid))
}

/// The published files a diff created or modified, with their new blobs, in diff order.
pub open spec fn updated_blobs(d: Seq<DiffV>) -> Seq<(Seq<char>, ObjectId)>
    decreases d.len(),
{
    if d.len() == 0 {
        seq![]
    } else {
        let prev = updated_blobs(d.drop_last());
        let (p, st, o) = d.last();
        if !is_ignored(p, false) && (st == State::Created || st == State::Modified) && o is Some {
            prev.push((p, o->0))
        } else {
            prev
        }
    }
}

/// No two entries of a diff name the same path, as in a map from path to change.
pub open spec fn diff_paths_distinct(d: Seq<DiffV>) -> bool {
    forall|i: int, j: int| 0 <= i < j < d.len() ==> (#[trigger] d[i]).0 != (#[trigger] d[j]).0
}

/// No two entries name the same path.
pub open spec fn blob_paths_distinct(v: Seq<(Seq<char>, ObjectId)>) -> bool {
    forall|i: int, j: int| 0 <= i < j < v.len() ==> (#[trigger] v[i]).0 != (#[trigger] v[j]).0
}

proof fn lemma_updated_blobs_from_diff(d: Seq<DiffV>)
    ensures
        updated_blobs(d).len() <= d.len(),
        forall|k: int|
            0 <= k < updated_blobs(d).len() ==> exists|i: int|
                0 <= i < d.len() && (#[trigger] d[i]).0 == (#[trigger] updated_blobs(d)[k]).0,
    decreases d.len(),
{
    if d.len() > 0 {
        let t = d.drop_last();
        lemma_updated_blobs_from_diff(t);
        let u = updated_blobs(d);
        assert forall|k: int| 0 <= k < u.len() implies exists|i: int|
            0 <= i < d.len() && (#[trigger] d[i]).0 == (#[trigger] u[k]).0 by {
            if k < updated_blobs(t).len() {
                let i = choose|i: int| 0 <= i < t.len() && (#[trigger] t[i]).0
                    == (#[trigger] updated_blobs(t)[k]).0;
                assert(d[i] == t[i]);
            } else {
                assert(d[d.len() - 1].0 == u[k].0);
            }
        }
    }
}

/// A diff that names each path once gives each blob to fetch once: the files to fetch name
/// distinct paths.
pub proof fn law_updated_blobs_distinct(d: Seq<DiffV>)
    requires
        diff_paths_distinct(d),
    ensures
        blob_paths_distinct(updated_blobs(d)),
    decreases d.len(),
{
    if d.len() > 0 {
        let t = d.drop_last();
        assert(diff_paths_distinct(t)) by {
            assert forall|i: int, j: int| 0 <= i < j < t.len() implies (#[trigger] t[i]).0 != (
            #[trigger] t[j]).0 by {
                assert(t[i] == d[i] && t[j] == d[j]);
            }
        }
        law_updated_blobs_distinct(t);
        lemma_updated_blobs_from_diff(t);
        let u = updated_blobs(d);
        let ut = updated_blobs(t);
        assert forall|i: int, j: int| 0 <= i < j < u.len() implies (#[trigger] u[i]).0 != (
        #[trigger] u[j]).0 by {
            if j >= ut.len() {
                assert(u[j].0 == d[d.len() - 1].0);
                assert(u[i] == ut[i]);
                let k = choose|k: int| 0 <= k < t.len() && (#[trigger] t[k]).0
                    == (#[trigger] ut[i]).0;
                assert(d[k] == t[k]);
            } else {
                assert(u[i] == ut[i] && u[j] == ut[j]);
            }
        }
    }
}

/// The blobs to fetch after a diff: created and modified files that are published.
pub fn collect_updated_file_blobs(diff: &Vec<(String, State, Option<ObjectId>)>) -> (r: Vec<
    FileBlob,
>)
    requires
        diff_paths_checkable(diff_view(diff@)),
    ensures
        blob_views(r@) == updated_blobs(diff_view(diff@)),
        diff_paths_distinct(diff_view(diff@)) ==> blob_paths_distinct(blob_views(r@)),
{
    let mut out: Vec<FileBlob> = Vec::new();
    let mut i: usize = 0;
    let ghost dv = diff_view(diff@);
    proof {
        assert(blob_views(out@) =~= updated_blobs(dv.take(0)));
    }
    while i < diff.len()
        invariant
            i <= diff.len(),
            dv == diff_view(diff@),
            diff_paths_checkable(dv),
            blob_views(out@) == updated_blobs(dv.take(i as int)),
        decreases diff.len() - i,
    {
        proof {
            assert(dv.take(i + 1).drop_last() =~= dv.take(i as int));
            assert(dv.take(i + 1).last() == dv[i as int]);
            assert(!ignore_check_panics(dv[i as int].0));
        }
        let (path, st, o) = (&diff[i].0, diff[i].1, diff[i].2);
        if !path_is_ignored(path.as_str(), false) {
            match (st, o) {
                (State::Created, Some(oid)) | (State::Modified, Some(oid)) => {
                    let ghost before = blob_views(out@);
                    out.push(FileBlob { file_path: path.clone(), oid });
                    proof {
                        assert(blob_views(out@) =~= before.push((path@, oid)));
                    }
                },
                _ => {},
            }
        }
        i += 1;
    }
    proof {
        assert(dv.take(diff@.len() as int) =~= dv);
        if diff_paths_distinct(dv) {
            law_updated_blobs_distinct(dv);
        }
    }
    out
}

/// Whether no path of a diff would make the ignore check panic.
pub fn diff_checkable(diff: &Vec<(String, State, Option<ObjectId>)>) -> (r: bool)
    ensures
        r == diff_paths_checkable(diff_view(diff@)),
{
    let mut i: usize = 0;
    while i < diff.len()
        invariant
            i <= diff.len(),
            forall|j: int| 0 <= j < i ==> !ignore_check_panics(#[trigger] diff_view(diff@)[j].0),
        decreases diff.len() - i,
    {
        if crate::ignore_check_would_panic(diff[i].0.as_str()) {
            proof {
                assert(diff_view(diff@)[i as int].0 == diff@[i as int].0@);
            }
            return false;
        }
        i += 1;
    }
    true
}

/// The post stored for a blob.
pub fn blob_blog_post(store: &BlogPostStore, oid: &ObjectId) -> (r: Option<BlogPost>)
    ensures
        opt_post(r) == get_by_oid_spec(store@, *oid),
{
    get_by_object_id(store, oid)
}

/// The post stored for a source path.
pub fn blob_blog_post_by_path(store: &BlogPostStore, path: &String) -> (r: Option<BlogPost>)
    ensures
        opt_post(r) == get_by_path_spec(store@, path@),
{
    get_by_path(store, path)
}

/// Every stored post.
pub fn all_blog_posts(store: &BlogPostStore) -> (r: Vec<BlogPost>)
    ensures
        post_views(r@) == all_spec(store@.posts),
{
    all(store)
}

/// Stores a post read from the published feed under its source path.
pub fn update_blog_post_from_atom(store: &mut BlogPostStore, path: String, post: BlogPost)
    ensures
        final(store)@ == upsert_spec(old(store)@, BlogPostV { path: path@, ..post@ }).0,
{
    let mut post = post;
    post.path = path;
    let _ = upsert(store, post);
}

/// A post after its Markdown source was read again (see
/// [`BlogPost::update_from_source_content`]).
pub open spec fn refreshed(p: BlogPostV, markdown: Seq<char>, delimiter: Seq<char>) -> BlogPostV {
    let parts = crate::markdown::article_parts(markdown, fallback_title_of(p.path), delimiter);
    BlogPostV {
        title: parts.title,
        summary: parts.summary_markdown,
        publication_date: match parts.publication_date {
            Some(d) => Some(d),
            None => p.publication_date,
        },
        last_updated: match parts.last_modified {
            Some(d) => d,
            None => p.last_updated,
        },
        ..p
    }
}

/// Refreshes the post stored for a blob from its Markdown source; nothing when none is stored.
pub fn update_blog_post_from_markdown(
    store: &mut BlogPostStore,
    oid: &ObjectId,
    markdown: &str,
    frontmatter_delimiter: &str,
)
    ensures
        final(store)@ == match get_by_oid_spec(old(store)@, *oid) {
            Some(p) => upsert_spec(old(store)@, refreshed(p, markdown@, frontmatter_delimiter@)).0,
            None => old(store)@,
        },
{
    if let Some(mut post) = get_by_object_id(store, oid) {
        post.update_from_source_content(markdown, frontmatter_delimiter);
        let _ = upsert(store, post);
    }
}

/// Store after a Markdown source at `path` was read: a post with defaults is stored when none
/// is, its last update set, then refreshed from the source.
pub open spec fn markdown_path_spec(
    s: StoreV,
    path: Seq<char>,
    markdown: Seq<char>,
    last_updated: TimeV,
    delimiter: Seq<char>,
) -> StoreV {
    let s1 = if get_by_path_spec(s, path) is None {
        upsert_spec(s, BlogPostV { object_id: None, ..defaults_v(path, last_updated) }).0
    } else {
        s
    };
    let s2 = if s1.by_path.contains_key(path) {
        update_spec(s1, s1.by_path[path], touch_update(last_updated)).0
    } else {
        s1
    };
    match get_by_path_spec(s2, path) {
        Some(p) => upsert_spec(s2, refreshed(p, markdown, delimiter)).0,
        None => s2,
    }
}

/// Stores or refreshes the post of a Markdown source read from the work tree.
pub fn update_blog_post_from_markdown_path(
    store: &mut BlogPostStore,
    path: String,
    markdown: &str,
    last_updated: Timestamp,
    frontmatter_delimiter: &str,
)
    ensures
        final(store)@ == markdown_path_spec(
            old(store)@,
            path@,
            markdown@,
            last_updated@,
            frontmatter_delimiter@,
        ),
{
    if get_by_path(store, &path).is_none() {
        let _ = upsert_with_defaults(store, path.clone(), None, last_updated);
    }
    let mut update = BlogPostUpdate::none();
    update.last_updated = Some(last_updated);
    proof {
        assert(update@ == touch_update(last_updated@));
    }
    let _ = update_by_path(store, &path, update);
    if let Some(mut post) = get_by_path(store, &path) {
        post.update_from_source_content(markdown, frontmatter_delimiter);
        let _ = upsert(store, post);
    }
}

/// The time of a commit: its seconds since the epoch at its offset, the offset dropped to zero
/// when it is not strictly within a day.
pub fn commit_time(seconds: i64, offset: i32) -> (r: Timestamp)
    requires
        crate::time::MIN_SECS <= seconds <= crate::time::MAX_SECS,
    ensures
        r@ == (TimeV {
            secs: seconds as int,
            nanos: 0,
            offset: if -86_400 < offset < 86_400 {
                offset as int
            } else {
                0
            },
        }),
{
    let off = if -86_400 < offset && offset < 86_400 {
        offset
    } else {
        0
    };
    Timestamp::from_valid_parts(seconds, 0, off)
}

/// Walking history newest first stops after the first commit at or before the cut-off.
pub fn walk_stops_at(commit_dt: &Timestamp, up_to: &Option<Timestamp>) -> (r: bool)
    ensures
        r == match up_to {
            Some(c) => commit_dt@.instant() <= c@.instant(),
            None => false,
        },
{
    match up_to {
        Some(c) => !commit_dt.is_after(c),
        None => false,
    }
}

/// The commits walked from a local repository, newest first: the head tree is the first
/// commit's, and the cut-off tree the last commit's when that commit is at or before the
/// cut-off.
pub fn local_tree_ends(commit_dts: &Vec<Timestamp>, up_to: &Timestamp) -> (r: (
    Option<usize>,
    Option<usize>,
))
    ensures
        r.0 == (if commit_dts@.len() > 0 {
            Some(0usize)
        } else {
            None
        }),
        r.1 == (if commit_dts@.len() > 0 && commit_dts@.last()@.instant() <= up_to@.instant() {
            Some((commit_dts@.len() - 1) as usize)
        } else {
            None
        }),
{
    if commit_dts.len() == 0 {
        return (None, None);
    }
    let last = commit_dts.len() - 1;
    let up_to_idx = if !commit_dts[last].is_after(up_to) {
        Some(last)
    } else {
        None
    };
    (Some(0), up_to_idx)
}

/// A copied work tree leaves out git's own folder and the sources that are never published.
pub open spec fn worktree_skipped(rel: Seq<char>, is_dir: bool) -> bool {
    crate::paths::std_first_component(rel) == Some(".git"@) || is_ignored(rel, is_dir)
}

/// Whether a work tree entry is left out of the copy.
pub fn worktree_copy_is_skipped(rel: &str, is_dir: bool) -> (r: bool)
    requires
        !ignore_check_panics(rel@),
    ensures
        r == worktree_skipped(rel@, is_dir),
{
    let first = crate::paths::path_first_component(rel);
    let is_git = match first {
        Some(c) => crate::order::str_eq_text(c.as_str(), ".git"),
        None => false,
    };
    if is_git {
        return true;
    }
    path_is_ignored(rel, is_dir)
}

/// A local git repository on disk.
#[derive(Debug, Clone)]
pub struct GitLocal {
    pub repo_root: String,
    pub branch: String,
}

/// What a pack's commits tell while the pack is read: each commit's tree and time, newest
/// first, and the trees of the head and of the oldest fetched commit.
#[derive(Debug, Clone)]
pub struct PackScan {
    pub commits: Vec<(ObjectId, Timestamp)>,
    pub head_tree_id: Option<ObjectId>,
    pub up_to_tree_id: Option<ObjectId>,
}

impl PackScan {
    /// Nothing read yet.
    pub fn new() -> (r: PackScan)
        ensures
            r.commits@.len() == 0,
            r.head_tree_id is None,
            r.up_to_tree_id is None,
    {
        PackScan { commits: Vec::new(), head_tree_id: None, up_to_tree_id: None }
    }

    /// A commit was read: it is recorded, its tree is the head tree when it is the first, and
    /// the oldest tree so far.
    pub fn on_commit(&mut self, tree_id: ObjectId, commit_dt: Timestamp)
        ensures
            final(self).commits@ == old(self).commits@.push((tree_id, commit_dt)),
            final(self).head_tree_id == (if old(self).head_tree_id is None {
                Some(tree_id)
            } else {
                old(self).head_tree_id
            }),
            final(self).up_to_tree_id == Some(tree_id),
    {
        self.commits.push((tree_id, commit_dt));
        if self.head_tree_id.is_none() {
            self.head_tree_id = Some(tree_id);
        }
        self.up_to_tree_id = Some(tree_id);
    }

    /// A tree was read: whether it is the head tree, and whether it is the oldest tree so far.
    pub fn tree_roles(&self, oid: ObjectId) -> (r: (bool, bool))
        ensures
            r.0 == (self.head_tree_id == Some(oid)),
            r.1 == (self.up_to_tree_id == Some(oid)),
    {
        let head = match self.head_tree_id {
            Some(h) => h == oid,
            None => false,
        };
        let up_to = match self.up_to_tree_id {
            Some(u) => u == oid,
            None => false,
        };
        (head, up_to)
    }
}

/// Where a fetched blob goes: the path of the last requested blob with that id.
pub fn requested_path(blobs: &Vec<FileBlob>, oid: ObjectId) -> (r: Option<String>)
    ensures
        match r {
            Some(p) => exists|i: int|
                0 <= i < blobs@.len() && blobs@[i].oid == oid && blobs@[i].file_path@ == p@ && (
                forall|j: int| i < j < blobs@.len() ==> blobs@[j].oid != oid),
            None => forall|i: int| 0 <= i < blobs@.len() ==> blobs@[i].oid != oid,
        },
{
    let mut i = blobs.len();
    while i > 0
        invariant
            i <= blobs.len(),
            forall|j: int| i <= j < blobs@.len() ==> blobs@[j].oid != oid,
        decreases i,
    {
        if blobs[i - 1].oid == oid {
            let p = blobs[i - 1].file_path.clone();
            proof {
                assert(blobs@[i - 1].file_path@ == p@);
            }
            return Some(p);
        }
        i -= 1;
    }
    None
}

/// A requested blob that the pack did not hold, if any (the first in request order).
pub fn first_missing_blob(blobs: &Vec<FileBlob>, written: &Vec<ObjectId>) -> (r: Option<
    ObjectId,
>)
    ensures
        r is None <==> forall|i: int| 0 <= i < blobs@.len() ==> written@.contains(#[trigger] blobs@[i].oid),
        r matches Some(o) ==> !written@.contains(o) && exists|i: int|
            0 <= i < blobs@.len() && blobs@[i].oid == o,
{
    let mut i: usize = 0;
    while i < blobs.len()
        invariant
            i <= blobs.len(),
            forall|j: int| 0 <= j < i ==> written@.contains(#[trigger] blobs@[j].oid),
        decreases blobs.len() - i,
    {
        let o = blobs[i].oid;
        let mut found = false;
        let mut k: usize = 0;
        while k < written.len()
            invariant
                k <= written.len(),
                found == exists|m: int| 0 <= m < k && written@[m] == o,
            decreases written.len() - k,
        {
            if written[k] == o {
                found = true;
            }
            k += 1;
        }
        if !found {
            proof {
                assert(blobs@[i as int].oid == o);
            }
            return Some(o);
        }
        proof {
            let m = choose|m: int| 0 <= m < written.len() && written@[m] == o;
            assert(written@.contains(o));
        }
        i += 1;
    }
    None
}

/// The entries of the tree a commit is compared against: the next (older) commit's tree when
/// it is at hand, else none.
pub open spec fn parent_entries(commits: Seq<(Option<GitTree>, Timestamp)>, i: int) -> Seq<
    TreeEntry,
> {
    if i + 1 < commits.len() {
        match commits[i + 1].0 {
            Some(t) => t.entries@,
            None => seq![],
        }
    } else {
        seq![]
    }
}

/// What changed in commit `i`, when its tree is at hand.
pub open spec fn commit_diff(commits: Seq<(Option<GitTree>, Timestamp)>, i: int) -> Option<
    Seq<DiffV>,
> {
    match commits[i].0 {
        Some(t) => Some(tree_diff_entries(parent_entries(commits, i), t.entries@)),
        None => None,
    }
}

/// Store after the first `n` commits of the history (newest first) were applied.
pub open spec fn history_spec(s: StoreV, commits: Seq<(Option<GitTree>, Timestamp)>, n: int) -> StoreV
    decreases n,
{
    if n <= 0 {
        s
    } else {
        let prev = history_spec(s, commits, n - 1);
        match commit_diff(commits, n - 1) {
            Some(d) => apply_diff_spec(prev, d, commits[n - 1].1@),
            None => prev,
        }
    }
}

/// The diff of commit `i` has no path that the ignore check cannot take.
pub open spec fn commit_checkable(commits: Seq<(Option<GitTree>, Timestamp)>, i: int) -> bool {
    match commit_diff(commits, i) {
        Some(d) => diff_paths_checkable(d),
        None => true,
    }
}

/// Applies a history of commits, newest first, each with its tree when at hand: each commit's
/// tree is compared with the next one's (an empty tree for the oldest or when it is not at
/// hand) and the diff applied at the commit's time; commits without their tree are skipped.
/// Stops with the index of the first commit whose diff holds a path the ignore check cannot
/// take.
pub fn apply_commit_history_to_blog_posts(
    store: &mut BlogPostStore,
    commits: &Vec<(Option<GitTree>, Timestamp)>,
) -> (r: Result<(), usize>)
    ensures
        r is Ok ==> final(store)@ == history_spec(old(store)@, commits@, commits@.len() as int)
            && forall|i: int| 0 <= i < commits@.len() ==> commit_checkable(commits@, i),
        r matches Err(i) ==> i < commits@.len() && !commit_checkable(commits@, i as int)
            && final(store)@ == history_spec(old(store)@, commits@, i as int) && forall|j: int|
            0 <= j < i ==> commit_checkable(commits@, j),
{
    let empty = GitTree { entries: Vec::new() };
    let mut i: usize = 0;
    while i < commits.len()
        invariant
            i <= commits.len(),
            empty.entries@.len() == 0,
            store@ == history_spec(old(store)@, commits@, i as int),
            forall|j: int| 0 <= j < i ==> commit_checkable(commits@, j),
        decreases commits.len() - i,
    {
        match &commits[i].0 {
            Some(current) => {
                let from = if i + 1 < commits.len() {
                    match &commits[i + 1].0 {
                        Some(t) => t,
                        None => &empty,
                    }
                } else {
                    &empty
                };
                proof {
                    assert(from.entries@ =~= parent_entries(commits@, i as int));
                }
                let diff = tree_diff(from, current);
                if !diff_checkable(&diff) {
                    return Err(i);
                }
                apply_tree_diff_to_blog_posts(store, &diff, commits[i].1);
            },
            None => {},
        }
        i += 1;
    }
    Ok(())
}

} // verus!
