//! Executable association lists from paths and from object ids to store ids.
use vstd::prelude::*;
use crate::assoc::{
    assoc_map, keys_unique, lemma_assoc_absent, lemma_assoc_at, lemma_assoc_filter_push,
    lemma_assoc_push, lemma_assoc_remove, lemma_assoc_update, map_without_value,
};
use crate::blog_post::ObjectId;

verus! {

/// Path keys as character sequences.
pub open spec fn path_entries(v: Seq<(String, usize)>) -> Seq<(Seq<char>, usize)> {
    Seq::new(v.len(), |i: int| (v[i].0@, v[i].1))
}

pub fn path_lookup(v: &Vec<(String, usize)>, key: &String) -> (r: Option<usize>)
    requires
        keys_unique(path_entries(v@)),
    ensures
        match r {
            Some(id) => assoc_map(path_entries(v@)).contains_key(key@) && assoc_map(
                path_entries(v@),
            )[key@] == id,
            None => !assoc_map(path_entries(v@)).contains_key(key@),
        },
{
    let mut i: usize = 0;
    while i < v.len()
        invariant
            i <= v.len(),
            keys_unique(path_entries(v@)),
            forall|j: int| 0 <= j < i ==> path_entries(v@)[j].0 != key@,
        decreases v.len() - i,
    {
        if v[i].0 == *key {
            proof {
                lemma_assoc_at(path_entries(v@), i as int);
            }
            return Some(v[i].1);
        }
        i += 1;
    }
    proof {
        lemma_assoc_absent(path_entries(v@), key@);
    }
    None
}

pub fn path_insert(v: &mut Vec<(String, usize)>, key: String, id: usize)
    requires
        keys_unique(path_entries(old(v)@)),
    ensures
        keys_unique(path_entries(final(v)@)),
        assoc_map(path_entries(final(v)@)) == assoc_map(path_entries(old(v)@)).insert(
            key@,
            id as int,
        ),
{
    let mut i: usize = 0;
    while i < v.len()
        invariant
            i <= v.len(),
            v@ == old(v)@,
            keys_unique(path_entries(v@)),
            forall|j: int| 0 <= j < i ==> path_entries(v@)[j].0 != key@,
        decreases v.len() - i,
    {
        if v[i].0 == key {
            proof {
                lemma_assoc_update(path_entries(v@), i as int, id);
                assert(path_entries(v@.update(i as int, (key, id))) =~= path_entries(v@).update(
                    i as int,
                    (path_entries(v@)[i as int].0, id),
                ));
            }
            v.set(i, (key, id));
            return;
        }
        i += 1;
    }
    proof {
        lemma_assoc_push(path_entries(v@), key@, id);
        assert(path_entries(v@.push((key, id))) =~= path_entries(v@).push((key@, id)));
    }
    v.push((key, id));
}

pub fn path_remove_key(v: &mut Vec<(String, usize)>, key: &String)
    requires
        keys_unique(path_entries(old(v)@)),
    ensures
        keys_unique(path_entries(final(v)@)),
        assoc_map(path_entries(final(v)@)) == assoc_map(path_entries(old(v)@)).remove(key@),
{
    let mut i: usize = 0;
    while i < v.len()
        invariant
            i <= v.len(),
            v@ == old(v)@,
            keys_unique(path_entries(v@)),
            forall|j: int| 0 <= j < i ==> path_entries(v@)[j].0 != key@,
        decreases v.len() - i,
    {
        if v[i].0 == *key {
            proof {
                lemma_assoc_remove(path_entries(v@), i as int);
                assert(path_entries(v@.remove(i as int)) =~= path_entries(v@).remove(i as int));
            }
            v.remove(i);
            return;
        }
        i += 1;
    }
    proof {
        lemma_assoc_absent(path_entries(v@), key@);
        assert(assoc_map(path_entries(v@)).remove(key@) =~= assoc_map(path_entries(v@)));
    }
}

pub fn path_retain_not_value(v: &mut Vec<(String, usize)>, id: usize)
    requires
        keys_unique(path_entries(old(v)@)),
    ensures
        keys_unique(path_entries(final(v)@)),
        assoc_map(path_entries(final(v)@)) == map_without_value(
            assoc_map(path_entries(old(v)@)),
            id as int,
        ),
{
    let mut kept: Vec<(String, usize)> = Vec::new();
    let mut i: usize = 0;
    let ghost s = path_entries(v@);
    proof {
        assert(s.take(0) =~= Seq::<(Seq<char>, usize)>::empty());
        assert(assoc_map(Seq::<(Seq<char>, usize)>::empty()) =~= map_without_value(
            assoc_map(s.take(0)),
            id as int,
        ));
        assert(path_entries(kept@) =~= Seq::<(Seq<char>, usize)>::empty());
    }
    while i < v.len()
        invariant
            i <= v.len(),
            s == path_entries(v@),
            keys_unique(s),
            keys_unique(s.take(i as int)),
            keys_unique(path_entries(kept@)),
            forall|j: int, l: int|
                0 <= j < kept@.len() && i <= l < s.len() ==> #[trigger] path_entries(kept@)[j].0
                    != #[trigger] s[l].0,
            assoc_map(path_entries(kept@)) == map_without_value(assoc_map(s.take(i as int)), id as int),
        decreases v.len() - i,
    {
        proof {
            lemma_assoc_filter_push(s, path_entries(kept@), i as int, id);
        }
        if v[i].1 != id {
            let e = (v[i].0.clone(), v[i].1);
            proof {
                assert(path_entries(kept@.push(e)) =~= path_entries(kept@).push(s[i as int]));
            }
            kept.push(e);
        }
        i += 1;
    }
    proof {
        assert(s.take(v@.len() as int) =~= s);
    }
    *v = kept;
}

pub fn oid_lookup(v: &Vec<(ObjectId, usize)>, key: ObjectId) -> (r: Option<usize>)
    requires
        keys_unique(v@),
    ensures
        match r {
            Some(id) => assoc_map(v@).contains_key(key) && assoc_map(v@)[key] == id,
            None => !assoc_map(v@).contains_key(key),
        },
{
    let mut i: usize = 0;
    while i < v.len()
        invariant
            i <= v.len(),
            keys_unique(v@),
            forall|j: int| 0 <= j < i ==> v@[j].0 != key,
        decreases v.len() - i,
    {
        if v[i].0 == key {
            proof {
                lemma_assoc_at(v@, i as int);
            }
            return Some(v[i].1);
        }
        i += 1;
    }
    proof {
        lemma_assoc_absent(v@, key);
    }
    None
}

pub fn oid_insert(v: &mut Vec<(ObjectId, usize)>, key: ObjectId, id: usize)
    requires
        keys_unique(old(v)@),
    ensures
        keys_unique(final(v)@),
        assoc_map(final(v)@) == assoc_map(old(v)@).insert(key, id as int),
{
    let mut i: usize = 0;
    while i < v.len()
        invariant
            i <= v.len(),
            v@ == old(v)@,
            keys_unique(v@),
            forall|j: int| 0 <= j < i ==> v@[j].0 != key,
        decreases v.len() - i,
    {
        if v[i].0 == key {
            proof {
                lemma_assoc_update(v@, i as int, id);
            }
            v.set(i, (key, id));
            return;
        }
        i += 1;
    }
    proof {
        lemma_assoc_push(v@, key, id);
    }
    v.push((key, id));
}

pub fn oid_remove_key(v: &mut Vec<(ObjectId, usize)>, key: ObjectId)
    requires
        keys_unique(old(v)@),
    ensures
        keys_unique(final(v)@),
        assoc_map(final(v)@) == assoc_map(old(v)@).remove(key),
{
    let mut i: usize = 0;
    while i < v.len()
        invariant
            i <= v.len(),
            v@ == old(v)@,
            keys_unique(v@),
            forall|j: int| 0 <= j < i ==> v@[j].0 != key,
        decreases v.len() - i,
    {
        if v[i].0 == key {
            proof {
                lemma_assoc_remove(v@, i as int);
            }
            v.remove(i);
            return;
        }
        i += 1;
    }
    proof {
        lemma_assoc_absent(v@, key);
        assert(assoc_map(v@).remove(key) =~= assoc_map(v@));
    }
}

pub fn oid_retain_not_value(v: &mut Vec<(ObjectId, usize)>, id: usize)
    requires
        keys_unique(old(v)@),
    ensures
        keys_unique(final(v)@),
        assoc_map(final(v)@) == map_without_value(assoc_map(old(v)@), id as int),
{
    let mut kept: Vec<(ObjectId, usize)> = Vec::new();
    let mut i: usize = 0;
    let ghost s = v@;
    proof {
        assert(s.take(0) =~= Seq::<(ObjectId, usize)>::empty());
        assert(assoc_map(kept@) =~= map_without_value(assoc_map(s.take(0)), id as int));
    }
    while i < v.len()
        invariant
            i <= v.len(),
            s == v@,
            keys_unique(s),
            keys_unique(s.take(i as int)),
            keys_unique(kept@),
            forall|j: int, l: int|
                0 <= j < kept@.len() && i <= l < s.len() ==> #[trigger] kept@[j].0 != #[trigger] s[l].0,
            assoc_map(kept@) == map_without_value(assoc_map(s.take(i as int)), id as int),
        decreases v.len() - i,
    {
        proof {
            lemma_assoc_filter_push(s, kept@, i as int, id);
        }
        if v[i].1 != id {
            let e = v[i];
            kept.push(e);
        }
        i += 1;
    }
    proof {
        assert(s.take(v@.len() as int) =~= s);
    }
    *v = kept;
}

} // verus!
