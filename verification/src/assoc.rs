//! Association lists with distinct keys, read as maps.
use vstd::prelude::*;

verus! {

/// No key occurs twice.
pub open spec fn keys_unique<K>(s: Seq<(K, usize)>) -> bool {
    forall|i: int, j: int| 0 <= i < s.len() && 0 <= j < s.len() && i != j ==> s[i].0 != s[j].0
}

/// The map an association list denotes.
pub open spec fn assoc_map<K>(s: Seq<(K, usize)>) -> Map<K, int> {
    Map::new(
        |k: K| exists|i: int| 0 <= i < s.len() && s[i].0 == k,
        |k: K| s[choose|i: int| 0 <= i < s.len() && s[i].0 == k].1 as int,
    )
}

pub proof fn lemma_assoc_at<K>(s: Seq<(K, usize)>, i: int)
    requires
        keys_unique(s),
        0 <= i < s.len(),
    ensures
        assoc_map(s).contains_key(s[i].0),
        assoc_map(s)[s[i].0] == s[i].1 as int,
{
    let k = s[i].0;
    assert(exists|j: int| 0 <= j < s.len() && s[j].0 == k);
    let j = choose|j: int| 0 <= j < s.len() && s[j].0 == k;
    assert(j == i);
}

pub proof fn lemma_assoc_absent<K>(s: Seq<(K, usize)>, k: K)
    requires
        forall|i: int| 0 <= i < s.len() ==> s[i].0 != k,
    ensures
        !assoc_map(s).contains_key(k),
{
}

pub proof fn lemma_assoc_push<K>(s: Seq<(K, usize)>, k: K, v: usize)
    requires
        keys_unique(s),
        forall|i: int| 0 <= i < s.len() ==> s[i].0 != k,
    ensures
        keys_unique(s.push((k, v))),
        assoc_map(s.push((k, v))) == assoc_map(s).insert(k, v as int),
{
    let t = s.push((k, v));
    assert forall|q: K| #[trigger] assoc_map(t).contains_key(q) == assoc_map(s).insert(
        k,
        v as int,
    ).contains_key(q) by {
        if q != k && assoc_map(t).contains_key(q) {
            let j = choose|j: int| 0 <= j < t.len() && t[j].0 == q;
            assert(0 <= j < s.len() && s[j].0 == q);
        }
        if assoc_map(s).contains_key(q) {
            let j = choose|j: int| 0 <= j < s.len() && s[j].0 == q;
            assert(t[j].0 == q);
        }
        if q == k {
            assert(t[s.len() as int].0 == q);
        }
    }
    assert forall|q: K| #[trigger] assoc_map(t).contains_key(q) implies assoc_map(t)[q]
        == assoc_map(s).insert(k, v as int)[q] by {
        let j = choose|j: int| 0 <= j < t.len() && t[j].0 == q;
        lemma_assoc_at(t, j);
        if j < s.len() {
            lemma_assoc_at(s, j);
        }
    }
    assert(assoc_map(t) =~= assoc_map(s).insert(k, v as int));
}

pub proof fn lemma_assoc_update<K>(s: Seq<(K, usize)>, i: int, v: usize)
    requires
        keys_unique(s),
        0 <= i < s.len(),
    ensures
        keys_unique(s.update(i, (s[i].0, v))),
        assoc_map(s.update(i, (s[i].0, v))) == assoc_map(s).insert(s[i].0, v as int),
{
    let t = s.update(i, (s[i].0, v));
    let k = s[i].0;
    assert forall|q: K| #[trigger] assoc_map(t).contains_key(q) == assoc_map(s).insert(
        k,
        v as int,
    ).contains_key(q) by {
        if assoc_map(t).contains_key(q) {
            let j = choose|j: int| 0 <= j < t.len() && t[j].0 == q;
            assert(s[j].0 == q);
        }
        if assoc_map(s).contains_key(q) {
            let j = choose|j: int| 0 <= j < s.len() && s[j].0 == q;
            assert(t[j].0 == q);
        }
    }
    assert forall|q: K| #[trigger] assoc_map(t).contains_key(q) implies assoc_map(t)[q]
        == assoc_map(s).insert(k, v as int)[q] by {
        let j = choose|j: int| 0 <= j < t.len() && t[j].0 == q;
        lemma_assoc_at(t, j);
        lemma_assoc_at(s, j);
    }
    assert(assoc_map(t) =~= assoc_map(s).insert(k, v as int));
}

pub proof fn lemma_assoc_remove<K>(s: Seq<(K, usize)>, i: int)
    requires
        keys_unique(s),
        0 <= i < s.len(),
    ensures
        keys_unique(s.remove(i)),
        assoc_map(s.remove(i)) == assoc_map(s).remove(s[i].0),
{
    let t = s.remove(i);
    let k = s[i].0;
    assert forall|a: int, b: int| 0 <= a < t.len() && 0 <= b < t.len() && a != b implies t[a].0
        != t[b].0 by {
        let a2 = if a < i { a } else { a + 1 };
        let b2 = if b < i { b } else { b + 1 };
        assert(t[a] == s[a2]);
        assert(t[b] == s[b2]);
    }
    assert forall|q: K| #[trigger] assoc_map(t).contains_key(q) == assoc_map(s).remove(
        k,
    ).contains_key(q) by {
        if assoc_map(t).contains_key(q) {
            let j = choose|j: int| 0 <= j < t.len() && t[j].0 == q;
            let j2 = if j < i { j } else { j + 1 };
            assert(s[j2].0 == q);
            assert(j2 != i);
        }
        if assoc_map(s).contains_key(q) && q != k {
            let j = choose|j: int| 0 <= j < s.len() && s[j].0 == q;
            assert(j != i);
            let j2 = if j < i { j } else { j - 1 };
            assert(t[j2].0 == q);
        }
    }
    assert forall|q: K| #[trigger] assoc_map(t).contains_key(q) implies assoc_map(t)[q]
        == assoc_map(s).remove(k)[q] by {
        let j = choose|j: int| 0 <= j < t.len() && t[j].0 == q;
        lemma_assoc_at(t, j);
        let j2 = if j < i { j } else { j + 1 };
        assert(s[j2] == t[j]);
        lemma_assoc_at(s, j2);
    }
    assert(assoc_map(t) =~= assoc_map(s).remove(k));
}

/// The entries of a map whose value is not `v`.
pub open spec fn map_without_value<K>(m: Map<K, int>, v: int) -> Map<K, int> {
    m.restrict(m.dom().filter(|k: K| m[k] != v))
}

pub proof fn lemma_assoc_filter_push<K>(s: Seq<(K, usize)>, kept: Seq<(K, usize)>, i: int, v: usize)
    requires
        keys_unique(s),
        0 <= i < s.len(),
        keys_unique(kept),
        forall|j: int, l: int|
            0 <= j < kept.len() && i <= l < s.len() ==> #[trigger] kept[j].0 != #[trigger] s[l].0,
        assoc_map(kept) == map_without_value(assoc_map(s.take(i)), v as int),
        keys_unique(s.take(i)),
    ensures
        keys_unique(s.take(i + 1)),
        s[i].1 != v ==> keys_unique(kept.push(s[i])),
        s[i].1 != v ==> assoc_map(kept.push(s[i])) == map_without_value(
            assoc_map(s.take(i + 1)),
            v as int,
        ),
        s[i].1 == v ==> assoc_map(kept) == map_without_value(assoc_map(s.take(i + 1)), v as int),
        forall|j: int, l: int|
            0 <= j < kept.len() && i + 1 <= l < s.len() ==> #[trigger] kept[j].0 != #[trigger] s[l].0,
        s[i].1 != v ==> forall|j: int, l: int|
            0 <= j < kept.push(s[i]).len() && i + 1 <= l < s.len() ==> #[trigger] kept.push(
                s[i],
            )[j].0 != #[trigger] s[l].0,
{
    let p = s.take(i);
    let p1 = s.take(i + 1);
    assert(p1 =~= p.push(s[i]));
    assert forall|j: int| 0 <= j < p.len() implies p[j].0 != s[i].0 by {
        assert(p[j] == s[j]);
    }
    lemma_assoc_push(p, s[i].0, s[i].1);
    let m = assoc_map(p);
    let m1 = assoc_map(p1);
    assert(m1 == m.insert(s[i].0, s[i].1 as int));
    assert(!m.contains_key(s[i].0));
    if s[i].1 != v {
        assert forall|j: int| 0 <= j < kept.len() implies kept[j].0 != s[i].0 by {
            assert(kept[j].0 != s[i].0);
        }
        lemma_assoc_push(kept, s[i].0, s[i].1);
        assert forall|j: int, l: int|
            0 <= j < kept.push(s[i]).len() && i + 1 <= l < s.len() implies #[trigger] kept.push(
                s[i],
            )[j].0 != #[trigger] s[l].0 by {
            if j == kept.len() {
                assert(kept.push(s[i])[j] == s[i]);
            } else {
                assert(kept.push(s[i])[j] == kept[j]);
            }
        }
        assert(map_without_value(m1, v as int) =~= map_without_value(m, v as int).insert(
            s[i].0,
            s[i].1 as int,
        ));
    } else {
        assert(map_without_value(m1, v as int) =~= map_without_value(m, v as int));
    }
}

} // verus!
