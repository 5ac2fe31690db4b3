//! The order of `str` and `String` (code point by code point, a proper prefix first), and
//! sorted lists of distinct strings kept in that order.
use vstd::prelude::*;
use crate::views_of;

verus! {

/// `a` comes strictly before `b` in the order `String` compares in: code point by code point,
/// a proper prefix first (the byte order of UTF-8 orders as the code points do).
pub open spec fn str_lt(a: Seq<char>, b: Seq<char>) -> bool
    decreases a.len(),
{
    if b.len() == 0 {
        false
    } else if a.len() == 0 {
        true
    } else if a[0] != b[0] {
        (a[0] as int) < (b[0] as int)
    } else {
        str_lt(a.drop_first(), b.drop_first())
    }
}

/// Every string comes strictly before the ones after it.
pub open spec fn strictly_sorted(v: Seq<Seq<char>>) -> bool {
    forall|i: int, j: int| 0 <= i < j < v.len() ==> str_lt(#[trigger] v[i], #[trigger] v[j])
}

pub proof fn lemma_str_lt_irreflexive(a: Seq<char>)
    ensures
        !str_lt(a, a),
    decreases a.len(),
{
    if a.len() > 0 {
        lemma_str_lt_irreflexive(a.drop_first());
    }
}

pub proof fn lemma_str_lt_total(a: Seq<char>, b: Seq<char>)
    ensures
        a != b ==> (str_lt(a, b) || str_lt(b, a)),
        !(str_lt(a, b) && str_lt(b, a)),
    decreases a.len(),
{
    if a.len() > 0 && b.len() > 0 && a[0] == b[0] {
        lemma_str_lt_total(a.drop_first(), b.drop_first());
        if a != b {
            assert(a.drop_first() != b.drop_first()) by {
                if a.drop_first() == b.drop_first() {
                    assert(a =~= seq![a[0]] + a.drop_first());
                    assert(b =~= seq![b[0]] + b.drop_first());
                }
            }
        }
    } else if a.len() == 0 && b.len() == 0 {
        assert(a =~= b);
    } else if a.len() > 0 && b.len() > 0 {
        assert(a[0] != b[0]);
        assert((a[0] as int) != (b[0] as int));
    }
}

pub proof fn lemma_str_lt_transitive(a: Seq<char>, b: Seq<char>, c: Seq<char>)
    requires
        str_lt(a, b),
        str_lt(b, c),
    ensures
        str_lt(a, c),
    decreases a.len(),
{
    if a.len() > 0 && a[0] == b[0] && b[0] == c[0] {
        lemma_str_lt_transitive(a.drop_first(), b.drop_first(), c.drop_first());
    }
}

/// Whether `a` comes strictly before `b` in the order of `String`.
pub fn str_less(a: &str, b: &str) -> (r: bool)
    ensures
        r == str_lt(a@, b@),
{
    let av = crate::text::chars_of(a);
    let bv = crate::text::chars_of(b);
    let mut i: usize = 0;
    proof {
        assert(av@.skip(0) =~= av@);
        assert(bv@.skip(0) =~= bv@);
    }
    while i < av.len() && i < bv.len() && av[i] == bv[i]
        invariant
            i <= av.len(),
            i <= bv.len(),
            str_lt(av@.skip(i as int), bv@.skip(i as int)) == str_lt(a@, b@),
            av@ == a@,
            bv@ == b@,
        decreases av.len() - i,
    {
        proof {
            assert(av@.skip(i as int).drop_first() =~= av@.skip(i + 1));
            assert(bv@.skip(i as int).drop_first() =~= bv@.skip(i + 1));
        }
        i += 1;
    }
    if i == bv.len() {
        false
    } else if i == av.len() {
        true
    } else {
        av[i] < bv[i]
    }
}

/// Adds `x` to a strictly sorted list of strings, where it is not there yet.
pub fn insert_sorted_unique(v: &mut Vec<String>, x: String)
    requires
        strictly_sorted(views_of(old(v)@)),
    ensures
        strictly_sorted(views_of(final(v)@)),
        forall|s: Seq<char>|
            views_of(final(v)@).contains(s) <==> (views_of(old(v)@).contains(s) || s == x@),
{
    let ghost old_v = views_of(v@);
    let mut k: usize = 0;
    while k < v.len() && str_less(v[k].as_str(), x.as_str())
        invariant
            k <= v.len(),
            old_v == views_of(v@),
            strictly_sorted(old_v),
            forall|i: int| 0 <= i < k ==> str_lt(#[trigger] old_v[i], x@),
        decreases v.len() - k,
    {
        k += 1;
    }
    if k < v.len() && v[k] == x {
        proof {
            assert(old_v[k as int] == x@);
        }
        return;
    }
    proof {
        if k < old_v.len() {
            lemma_str_lt_total(old_v[k as int], x@);
            assert(str_lt(x@, old_v[k as int]));
            assert forall|i: int| k <= i < old_v.len() implies str_lt(x@, #[trigger] old_v[i]) by {
                if i > k {
                    lemma_str_lt_transitive(x@, old_v[k as int], old_v[i]);
                }
            }
        }
    }
    let ghost xv = x@;
    v.insert(k, x);
    proof {
        let nv = views_of(v@);
        assert(nv =~= old_v.insert(k as int, xv));
        assert forall|i: int, j: int| 0 <= i < j < nv.len() implies str_lt(
            #[trigger] nv[i],
            #[trigger] nv[j],
        ) by {
            if j < k {
            } else if i < k && j == k {
            } else if i < k && j > k {
                assert(nv[i] == old_v[i]);
                assert(nv[j] == old_v[j - 1]);
            } else if i == k {
                assert(nv[j] == old_v[j - 1]);
            } else {
                assert(nv[i] == old_v[i - 1]);
                assert(nv[j] == old_v[j - 1]);
            }
        }
        assert forall|s: Seq<char>| nv.contains(s) <==> (old_v.contains(s) || s == xv) by {
            if nv.contains(s) {
                let i = choose|i: int| 0 <= i < nv.len() && nv[i] == s;
                if i < k {
                    assert(old_v[i] == s);
                } else if i > k {
                    assert(old_v[i - 1] == s);
                }
            }
            if old_v.contains(s) {
                let i = choose|i: int| 0 <= i < old_v.len() && old_v[i] == s;
                if i < k {
                    assert(nv[i] == s);
                } else {
                    assert(nv[i + 1] == s);
                }
            }
            if s == xv {
                assert(nv[k as int] == s);
            }
        }
    }
}

/// The distinct strings of a list, each once, in the order of `String`.
pub fn sorted_unique(items: &Vec<String>) -> (r: Vec<String>)
    ensures
        strictly_sorted(views_of(r@)),
        forall|s: Seq<char>| views_of(r@).contains(s) <==> views_of(items@).contains(s),
{
    let mut out: Vec<String> = Vec::new();
    let mut i: usize = 0;
    proof {
        assert(views_of(out@) =~= Seq::<Seq<char>>::empty());
    }
    while i < items.len()
        invariant
            i <= items.len(),
            strictly_sorted(views_of(out@)),
            forall|s: Seq<char>|
                views_of(out@).contains(s) <==> views_of(items@).take(i as int).contains(s),
        decreases items.len() - i,
    {
        let ghost before = views_of(out@);
        insert_sorted_unique(&mut out, items[i].clone());
        proof {
            let t = views_of(items@).take(i + 1);
            assert(t =~= views_of(items@).take(i as int).push(items@[i as int]@));
            assert forall|s: Seq<char>| views_of(out@).contains(s) <==> t.contains(s) by {
                if t.contains(s) {
                    let j = choose|j: int| 0 <= j < t.len() && t[j] == s;
                    if j < i {
                        assert(views_of(items@).take(i as int)[j] == s);
                    }
                }
                if views_of(items@).take(i as int).contains(s) {
                    let j = choose|j: int|
                        0 <= j < i && views_of(items@).take(i as int)[j] == s;
                    assert(t[j] == s);
                }
                if s == items@[i as int]@ {
                    assert(t[i as int] == s);
                }
            }
        }
        i += 1;
    }
    proof {
        assert(views_of(items@).take(items@.len() as int) =~= views_of(items@));
    }
    out
}


/// Strict order of character sequences, code point by code point, a proper prefix first.
pub fn chars_less(a: &[char], b: &[char]) -> (r: bool)
    ensures
        r == str_lt(a@, b@),
{
    let mut i: usize = 0;
    proof {
        assert(a@.skip(0) =~= a@);
        assert(b@.skip(0) =~= b@);
    }
    while i < a.len() && i < b.len() && a[i] == b[i]
        invariant
            i <= a.len(),
            i <= b.len(),
            str_lt(a@.skip(i as int), b@.skip(i as int)) == str_lt(a@, b@),
        decreases a.len() - i,
    {
        proof {
            assert(a@.skip(i as int).drop_first() =~= a@.skip(i + 1));
            assert(b@.skip(i as int).drop_first() =~= b@.skip(i + 1));
        }
        i += 1;
    }
    proof {
        if i < a.len() && i < b.len() {
            assert(a@.skip(i as int)[0] == a@[i as int]);
            assert(b@.skip(i as int)[0] == b@[i as int]);
        }
    }
    if i == b.len() {
        false
    } else if i == a.len() {
        true
    } else {
        a[i] < b[i]
    }
}

/// A path component as `std::path::Component` orders them: the root (`1`), `.` at the start
/// (`2`), `..` (`3`), then a name (`4`) with its text.
pub type PathComp = (u8, Seq<char>);

/// The component a segment between separators makes, if any: empty segments and `.` make none.
pub open spec fn segment_comp(seg: Seq<char>) -> Option<PathComp> {
    if seg.len() == 0 || seg == seq!['.'] {
        None
    } else if seg == seq!['.', '.'] {
        Some((3u8, seq![]))
    } else {
        Some((4u8, seg))
    }
}

/// Components of the segments of `s`, `cur` being the segment read so far.
pub open spec fn segment_comps(s: Seq<char>, cur: Seq<char>) -> Seq<PathComp>
    decreases s.len(),
{
    if s.len() == 0 {
        match segment_comp(cur) {
            Some(c) => seq![c],
            None => seq![],
        }
    } else if s[0] == '/' {
        (match segment_comp(cur) {
            Some(c) => seq![c],
            None => seq![],
        }) + segment_comps(s.drop_first(), seq![])
    } else {
        segment_comps(s.drop_first(), cur.push(s[0]))
    }
}

/// The components `Path::components` yields for a path: the root for a leading `/`, else `.`
/// when the path is `.` or starts with `./`; then the names and `..` between separators, with
/// empty and `.` segments left out.
pub open spec fn path_comps(p: Seq<char>) -> Seq<PathComp> {
    (if p.len() > 0 && p[0] == '/' {
        seq![(1u8, seq![])]
    } else if p == seq!['.'] || (p.len() >= 2 && p[0] == '.' && p[1] == '/') {
        seq![(2u8, seq![])]
    } else {
        seq![]
    }) + segment_comps(p, seq![])
}

/// Component `x` comes strictly before `y`: by kind, names by their text.
pub open spec fn comp_lt(x: PathComp, y: PathComp) -> bool {
    x.0 < y.0 || (x.0 == y.0 && str_lt(x.1, y.1))
}

/// Component sequence `a` comes strictly before `b`: at the first difference, or a proper
/// prefix first.
pub open spec fn comps_lt(a: Seq<PathComp>, b: Seq<PathComp>) -> bool
    decreases a.len(),
{
    if b.len() == 0 {
        false
    } else if a.len() == 0 {
        true
    } else if a[0] != b[0] {
        comp_lt(a[0], b[0])
    } else {
        comps_lt(a.drop_first(), b.drop_first())
    }
}

/// `a` comes strictly before `b` as `Path` orders them: component by component.
pub open spec fn path_lt(a: Seq<char>, b: Seq<char>) -> bool {
    comps_lt(path_comps(a), path_comps(b))
}

proof fn lemma_comp_lt_order(x: PathComp, y: PathComp, z: PathComp)
    ensures
        !comp_lt(x, x),
        x != y ==> (comp_lt(x, y) || comp_lt(y, x)),
        !(comp_lt(x, y) && comp_lt(y, x)),
        comp_lt(x, y) && comp_lt(y, z) ==> comp_lt(x, z),
{
    lemma_str_lt_irreflexive(x.1);
    lemma_str_lt_total(x.1, y.1);
    if comp_lt(x, y) && comp_lt(y, z) && x.0 == y.0 && y.0 == z.0 {
        lemma_str_lt_transitive(x.1, y.1, z.1);
    }
}

/// No path comes before itself.
pub proof fn lemma_path_lt_irreflexive(a: Seq<char>)
    ensures
        !path_lt(a, a),
{
    lemma_comps_lt_irreflexive(path_comps(a));
}

proof fn lemma_comps_lt_irreflexive(a: Seq<PathComp>)
    ensures
        !comps_lt(a, a),
    decreases a.len(),
{
    if a.len() > 0 {
        lemma_comps_lt_irreflexive(a.drop_first());
    }
}

proof fn lemma_comps_lt_total(a: Seq<PathComp>, b: Seq<PathComp>)
    ensures
        a != b ==> (comps_lt(a, b) || comps_lt(b, a)),
        !(comps_lt(a, b) && comps_lt(b, a)),
    decreases a.len(),
{
    if a.len() > 0 && b.len() > 0 && a[0] == b[0] {
        lemma_comps_lt_total(a.drop_first(), b.drop_first());
        if a != b {
            assert(a.drop_first() != b.drop_first()) by {
                if a.drop_first() == b.drop_first() {
                    assert(a =~= seq![a[0]] + a.drop_first());
                    assert(b =~= seq![b[0]] + b.drop_first());
                }
            }
        }
    } else if a.len() == 0 && b.len() == 0 {
        assert(a =~= b);
    } else if a.len() > 0 && b.len() > 0 {
        lemma_comp_lt_order(a[0], b[0], b[0]);
    }
}

/// Of two paths with different components, one comes first, and never both.
pub proof fn lemma_path_lt_total(a: Seq<char>, b: Seq<char>)
    ensures
        path_comps(a) != path_comps(b) ==> (path_lt(a, b) || path_lt(b, a)),
        !(path_lt(a, b) && path_lt(b, a)),
{
    lemma_comps_lt_total(path_comps(a), path_comps(b));
}

proof fn lemma_comps_lt_transitive(a: Seq<PathComp>, b: Seq<PathComp>, c: Seq<PathComp>)
    requires
        comps_lt(a, b),
        comps_lt(b, c),
    ensures
        comps_lt(a, c),
    decreases a.len(),
{
    if a.len() > 0 && b.len() > 0 && c.len() > 0 {
        lemma_comp_lt_order(a[0], b[0], c[0]);
        lemma_comp_lt_order(b[0], a[0], c[0]);
        lemma_comp_lt_order(a[0], c[0], b[0]);
        if a[0] == b[0] && b[0] == c[0] {
            lemma_comps_lt_transitive(a.drop_first(), b.drop_first(), c.drop_first());
        }
    }
}

/// The path order is transitive.
pub proof fn lemma_path_lt_transitive(a: Seq<char>, b: Seq<char>, c: Seq<char>)
    requires
        path_lt(a, b),
        path_lt(b, c),
    ensures
        path_lt(a, c),
{
    lemma_comps_lt_transitive(path_comps(a), path_comps(b), path_comps(c));
}

/// The component a segment makes, if any.
fn segment_comp_exec(seg: &Vec<char>) -> (r: Option<(u8, Vec<char>)>)
    ensures
        match r {
            Some((k, v)) => segment_comp(seg@) == Some((k, v@)),
            None => segment_comp(seg@) is None,
        },
{
    if seg.len() == 0 || (seg.len() == 1 && seg[0] == '.') {
        proof {
            if seg.len() == 1 {
                assert(seg@ =~= seq!['.']);
            }
        }
        None
    } else if seg.len() == 2 && seg[0] == '.' && seg[1] == '.' {
        proof {
            assert(seg@ =~= seq!['.', '.']);
        }
        Some((3u8, Vec::new()))
    } else {
        proof {
            if seg@ == seq!['.'] {
                assert(seg@[0] == '.');
            }
            if seg@ == seq!['.', '.'] {
                assert(seg@[0] == '.' && seg@[1] == '.');
            }
        }
        Some((4u8, crate::text::copy_chars(seg.as_slice())))
    }
}

pub open spec fn comp_views(v: Seq<(u8, Vec<char>)>) -> Seq<PathComp> {
    Seq::new(v.len(), |i: int| (v[i].0, v[i].1@))
}

/// The components of a path.
fn path_comps_exec(p: &[char]) -> (r: Vec<(u8, Vec<char>)>)
    ensures
        comp_views(r@) == path_comps(p@),
{
    let mut out: Vec<(u8, Vec<char>)> = Vec::new();
    if p.len() > 0 && p[0] == '/' {
        out.push((1u8, Vec::new()));
    } else if (p.len() == 1 && p[0] == '.') || (p.len() >= 2 && p[0] == '.' && p[1] == '/') {
        proof {
            if p.len() == 1 {
                assert(p@ =~= seq!['.']);
            }
        }
        out.push((2u8, Vec::new()));
    } else {
        proof {
            if p@ == seq!['.'] {
                assert(p@[0] == '.');
            }
        }
    }
    let ghost head = comp_views(out@);
    proof {
        assert(head =~= (if p@.len() > 0 && p@[0] == '/' {
            seq![(1u8, Seq::<char>::empty())]
        } else if p@ == seq!['.'] || (p@.len() >= 2 && p@[0] == '.' && p@[1] == '/') {
            seq![(2u8, Seq::<char>::empty())]
        } else {
            Seq::<PathComp>::empty()
        }));
    }
    let mut cur: Vec<char> = Vec::new();
    let mut j: usize = 0;
    proof {
        assert(p@.skip(0) =~= p@);
        assert(cur@ =~= Seq::<char>::empty());
    }
    while j < p.len()
        invariant
            j <= p.len(),
            comp_views(out@) + segment_comps(p@.skip(j as int), cur@) == head + segment_comps(
                p@,
                seq![],
            ),
        decreases p.len() - j,
    {
        let ch = p[j];
        proof {
            assert(p@.skip(j as int).drop_first() =~= p@.skip(j + 1));
            assert(p@.skip(j as int)[0] == ch);
        }
        if ch == '/' {
            let ghost before = comp_views(out@);
            match segment_comp_exec(&cur) {
                Some(c) => {
                    let ghost cv = (c.0, c.1@);
                    out.push(c);
                    proof {
                        assert(comp_views(out@) =~= before.push(cv));
                        assert(before.push(cv) + segment_comps(p@.skip(j + 1), seq![]) =~= before
                            + (seq![cv] + segment_comps(p@.skip(j + 1), seq![])));
                    }
                },
                None => {
                    proof {
                        assert(seq![] + segment_comps(p@.skip(j + 1), seq![]) =~= segment_comps(
                            p@.skip(j + 1),
                            seq![],
                        ));
                    }
                },
            }
            cur = Vec::new();
            proof {
                assert(cur@ =~= Seq::<char>::empty());
            }
        } else {
            cur.push(ch);
        }
        j += 1;
    }
    let ghost before = comp_views(out@);
    match segment_comp_exec(&cur) {
        Some(c) => {
            let ghost cv = (c.0, c.1@);
            out.push(c);
            proof {
                assert(comp_views(out@) =~= before.push(cv));
            }
        },
        None => {
            proof {
                assert(before + seq![] =~= before);
            }
        },
    }
    out
}

/// Whether path `a` comes strictly before path `b`, component by component.
pub fn path_less(a: &str, b: &str) -> (r: bool)
    ensures
        r == path_lt(a@, b@),
{
    let av = crate::text::chars_of(a);
    let bv = crate::text::chars_of(b);
    let ac = path_comps_exec(av.as_slice());
    let bc = path_comps_exec(bv.as_slice());
    let ghost x = comp_views(ac@);
    let ghost y = comp_views(bc@);
    let mut i: usize = 0;
    proof {
        assert(x.skip(0) =~= x);
        assert(y.skip(0) =~= y);
    }
    while i < ac.len() && i < bc.len()
        invariant
            i <= ac.len(),
            i <= bc.len(),
            x == comp_views(ac@),
            y == comp_views(bc@),
            x == path_comps(a@),
            y == path_comps(b@),
            comps_lt(x.skip(i as int), y.skip(i as int)) == comps_lt(x, y),
        decreases ac.len() - i,
    {
        proof {
            assert(x.skip(i as int)[0] == x[i as int]);
            assert(y.skip(i as int)[0] == y[i as int]);
            lemma_comp_lt_order(x[i as int], y[i as int], y[i as int]);
        }
        let (ka, na) = (ac[i].0, &ac[i].1);
        let (kb, nb) = (bc[i].0, &bc[i].1);
        proof {
            assert(x[i as int] == (ka, na@));
            assert(y[i as int] == (kb, nb@));
            assert(x.skip(i as int).len() > 0 && y.skip(i as int).len() > 0);
        }
        if ka != kb {
            proof {
                assert(x.skip(i as int)[0] != y.skip(i as int)[0]);
            }
            return ka < kb;
        }
        if chars_less(na.as_slice(), nb.as_slice()) {
            return true;
        }
        if chars_less(nb.as_slice(), na.as_slice()) {
            proof {
                lemma_str_lt_irreflexive(na@);
                assert(na@ != nb@);
                assert(x.skip(i as int)[0] != y.skip(i as int)[0]);
            }
            return false;
        }
        proof {
            lemma_str_lt_total(na@, nb@);
            assert(x[i as int] == y[i as int]);
            assert(x.skip(i as int).drop_first() =~= x.skip(i + 1));
            assert(y.skip(i as int).drop_first() =~= y.skip(i + 1));
        }
        i += 1;
    }
    i < bc.len()
}


/// Whether two strings hold the same characters.
pub fn str_eq_text(a: &str, b: &str) -> (r: bool)
    ensures
        r == (a@ == b@),
{
    let av = crate::text::chars_of(a);
    let bv = crate::text::chars_of(b);
    crate::text::eq_chars(av.as_slice(), bv.as_slice())
}

/// Inserting an item anywhere in a sequence adds it once to the sequence's multiset.
pub proof fn lemma_insert_to_multiset<A>(v: Seq<A>, k: int, x: A)
    requires
        0 <= k <= v.len(),
    ensures
        v.insert(k, x).to_multiset() == v.to_multiset().insert(x),
{
    broadcast use vstd::seq_lib::group_to_multiset_ensures;

    let w = v.insert(k, x);
    assert(w.remove(k) =~= v);
    assert(w[k] == x);
    assert(w.contains(x));
    assert(w.to_multiset() =~= v.to_multiset().insert(x));
}

} // verus!

