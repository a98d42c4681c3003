//! Sorting and de-duplication of string lists (`slice::sort`, `Vec::dedup`).

use vstd::prelude::*;
use crate::maps::views;
use crate::text::{seq_lt, seq_le, sorted, strictly_sorted, str_lt, str_eq, lemma_seq_lt_total, lemma_seq_lt_asymmetric,
    lemma_seq_lt_transitive, lemma_seq_le_transitive, lemma_seq_lt_irreflexive};

verus! {

/// `x` placed into the sorted sequence `s` after every element that is not greater than it.
pub open spec fn insert_sorted(x: Seq<char>, s: Seq<Seq<char>>) -> Seq<Seq<char>>
    decreases s.len(),
{
    if s.len() == 0 {
        seq![x]
    } else if seq_lt(x, s.last()) {
        insert_sorted(x, s.drop_last()).push(s.last())
    } else {
        s.push(x)
    }
}

/// `s` in ascending order; equal elements keep their relative order (a stable sort).
pub open spec fn sort_seq(s: Seq<Seq<char>>) -> Seq<Seq<char>>
    decreases s.len(),
{
    if s.len() == 0 {
        s
    } else {
        insert_sorted(s.last(), sort_seq(s.drop_last()))
    }
}

/// `s` with every run of equal neighbours reduced to one element (`Vec::dedup`).
pub open spec fn dedup_adjacent(s: Seq<Seq<char>>) -> Seq<Seq<char>>
    decreases s.len(),
{
    if s.len() == 0 {
        s
    } else {
        let d = dedup_adjacent(s.drop_last());
        if d.len() > 0 && d.last() == s.last() {
            d
        } else {
            d.push(s.last())
        }
    }
}

pub proof fn lemma_insert_sorted_props(x: Seq<char>, s: Seq<Seq<char>>)
    requires
        sorted(s),
    ensures
        sorted(insert_sorted(x, s)),
        insert_sorted(x, s).len() == s.len() + 1,
        insert_sorted(x, s).to_multiset() == s.to_multiset().insert(x),
    decreases s.len(),
{
    broadcast use vstd::seq_lib::group_to_multiset_ensures;
    if s.len() == 0 {
        assert(seq![x] =~= Seq::<Seq<char>>::empty().push(x));
    } else if seq_lt(x, s.last()) {
        let t = s.drop_last();
        assert(sorted(t));
        lemma_insert_sorted_props(x, t);
        let r = insert_sorted(x, t);
        assert(s =~= t.push(s.last()));
        // every element of r is at most s.last()
        assert forall|i: int| 0 <= i < r.len() implies seq_le(#[trigger] r[i], s.last()) by {
            lemma_insert_sorted_member(x, t, i);
            if r[i] == x {
            } else {
                let j = choose|j: int| 0 <= j < t.len() && t[j] == r[i];
                assert(seq_le(s[j], s[s.len() - 1]));
            }
        }
        assert forall|i: int, j: int| 0 <= i < j < r.push(s.last()).len() implies seq_le(
            #[trigger] r.push(s.last())[i],
            #[trigger] r.push(s.last())[j],
        ) by {
            if j == r.len() {
                assert(r.push(s.last())[j] == s.last());
            } else {
                assert(r.push(s.last())[i] == r[i]);
                assert(r.push(s.last())[j] == r[j]);
            }
        }
    } else {
        let r = s.push(x);
        assert forall|i: int, j: int| 0 <= i < j < r.len() implies seq_le(#[trigger] r[i], #[trigger] r[j]) by {
            if j == s.len() {
                lemma_seq_lt_total(x, s.last());
                assert(seq_le(s[i], s[s.len() - 1]));
                lemma_seq_le_transitive(s[i], s.last(), x);
            } else {
                assert(r[i] == s[i]);
                assert(r[j] == s[j]);
            }
        }
    }
}

pub proof fn lemma_insert_sorted_member(x: Seq<char>, s: Seq<Seq<char>>, i: int)
    requires
        0 <= i < insert_sorted(x, s).len(),
    ensures
        insert_sorted(x, s)[i] == x || exists|j: int| 0 <= j < s.len() && s[j] == insert_sorted(x, s)[i],
    decreases s.len(),
{
    if s.len() == 0 {
    } else if seq_lt(x, s.last()) {
        let t = s.drop_last();
        let r = insert_sorted(x, t);
        lemma_insert_sorted_len(x, t);
        if i < r.len() {
            lemma_insert_sorted_member(x, t, i);
            if r[i] != x {
                let j = choose|j: int| 0 <= j < t.len() && t[j] == r[i];
                assert(s[j] == r[i]);
            }
        } else {
            assert(s[s.len() - 1] == insert_sorted(x, s)[i]);
        }
    } else {
        if i < s.len() {
            assert(s[i] == insert_sorted(x, s)[i]);
        }
    }
}

pub proof fn lemma_insert_sorted_len(x: Seq<char>, s: Seq<Seq<char>>)
    ensures
        insert_sorted(x, s).len() == s.len() + 1,
    decreases s.len(),
{
    if s.len() > 0 && seq_lt(x, s.last()) {
        lemma_insert_sorted_len(x, s.drop_last());
    }
}

/// The stable sort gives back a sorted rearrangement of its input.
pub proof fn lemma_sort_seq_props(s: Seq<Seq<char>>)
    ensures
        sorted(sort_seq(s)),
        sort_seq(s).len() == s.len(),
        sort_seq(s).to_multiset() == s.to_multiset(),
    decreases s.len(),
{
    broadcast use vstd::seq_lib::group_to_multiset_ensures;
    if s.len() > 0 {
        lemma_sort_seq_props(s.drop_last());
        lemma_insert_sorted_props(s.last(), sort_seq(s.drop_last()));
        assert(s =~= s.drop_last().push(s.last()));
    }
}

/// Sorting a list without repeats gives a strictly ascending list of the same elements.
pub proof fn lemma_sort_seq_distinct(s: Seq<Seq<char>>)
    requires
        s.no_duplicates(),
    ensures
        strictly_sorted(sort_seq(s)),
        sort_seq(s).to_set() == s.to_set(),
{
    broadcast use vstd::seq_lib::group_to_multiset_ensures;
    let t = sort_seq(s);
    lemma_sort_seq_props(s);
    s.lemma_multiset_has_no_duplicates();
    t.lemma_multiset_has_no_duplicates_conv();
    assert forall|i: int, j: int| 0 <= i < j < t.len() implies seq_lt(#[trigger] t[i], #[trigger] t[j]) by {
        assert(seq_le(t[i], t[j]));
        assert(t[i] != t[j]);
    }
    assert forall|x: Seq<char>| t.to_set().contains(x) <==> s.to_set().contains(x) by {
        assert(t.contains(x) <==> t.to_multiset().count(x) > 0);
        assert(s.contains(x) <==> s.to_multiset().count(x) > 0);
    }
    assert(t.to_set() =~= s.to_set());
}

/// Two strictly ascending lists of the same elements are equal.
pub proof fn lemma_strictly_sorted_unique(a: Seq<Seq<char>>, b: Seq<Seq<char>>)
    requires
        strictly_sorted(a),
        strictly_sorted(b),
        a.to_set() == b.to_set(),
    ensures
        a == b,
    decreases a.len(),
{
    if a.len() == 0 {
        if b.len() > 0 {
            assert(b.to_set().contains(b[0]));
        }
        assert(a =~= b);
    } else if b.len() == 0 {
        assert(a.to_set().contains(a[0]));
    } else {
        let la = a.last();
        let lb = b.last();
        assert(a.to_set().contains(la));
        assert(b.to_set().contains(lb));
        let j = choose|j: int| 0 <= j < b.len() && b[j] == la;
        let i = choose|i: int| 0 <= i < a.len() && a[i] == lb;
        if j < b.len() - 1 {
            assert(seq_lt(b[j], lb));
            if i < a.len() - 1 {
                assert(seq_lt(a[i], la));
                lemma_seq_lt_asymmetric(la, lb);
            } else {
                lemma_seq_lt_irreflexive(la);
            }
        }
        assert(la == lb);
        let da = a.drop_last();
        let db = b.drop_last();
        assert forall|x: Seq<char>| da.to_set().contains(x) <==> db.to_set().contains(x) by {
            if da.contains(x) {
                let k = choose|k: int| 0 <= k < da.len() && da[k] == x;
                assert(seq_lt(a[k], la));
                assert(a.to_set().contains(x));
                let m = choose|m: int| 0 <= m < b.len() && b[m] == x;
                if m == b.len() - 1 {
                    lemma_seq_lt_irreflexive(la);
                }
                assert(db[m] == x);
            }
            if db.contains(x) {
                let k = choose|k: int| 0 <= k < db.len() && db[k] == x;
                assert(seq_lt(b[k], lb));
                assert(b.to_set().contains(x));
                let m = choose|m: int| 0 <= m < a.len() && a[m] == x;
                if m == a.len() - 1 {
                    lemma_seq_lt_irreflexive(la);
                }
                assert(da[m] == x);
            }
        }
        assert(da.to_set() =~= db.to_set());
        lemma_strictly_sorted_unique(da, db);
        assert(a =~= da.push(la));
        assert(b =~= db.push(lb));
    }
}

/// Places `x` into the sorted vector `v` (stable).
fn insert_sorted_exec(v: &mut Vec<String>, x: String)
    ensures
        views(final(v)@) == insert_sorted(x@, views(old(v)@)),
{
    let ghost s = views(v@);
    let mut j = v.len();
    assert(s.take(j as int) =~= s);
    while j > 0 && str_lt(x.as_str(), v[j - 1].as_str())
        invariant
            j <= v.len(),
            s == views(v@),
            insert_sorted(x@, s) == insert_sorted(x@, s.take(j as int)) + s.skip(j as int),
        decreases j,
    {
        proof {
            let t = s.take(j as int);
            assert(t.last() == v@[j - 1]@);
            assert(t.drop_last() =~= s.take(j - 1));
            assert(s.skip(j - 1) =~= seq![t.last()] + s.skip(j as int));
            assert(insert_sorted(x@, s.take(j - 1)).push(t.last()) + s.skip(j as int) =~= insert_sorted(
                x@,
                s.take(j - 1),
            ) + s.skip(j - 1));
        }
        j = j - 1;
    }
    proof {
        let t = s.take(j as int);
        if j > 0 {
            assert(t.last() == v@[j - 1]@);
        }
        assert(insert_sorted(x@, t) =~= t.push(x@));
    }
    let ghost xv = x@;
    v.insert(j, x);
    assert(views(v@) =~= s.take(j as int).push(xv) + s.skip(j as int));
}

/// `v` sorted in ascending order (`slice::sort`).
pub fn sort_strings(v: &Vec<String>) -> (r: Vec<String>)
    ensures
        views(r@) == sort_seq(views(v@)),
{
    let mut out: Vec<String> = Vec::new();
    let mut i: usize = 0;
    while i < v.len()
        invariant
            i <= v.len(),
            views(out@) == sort_seq(views(v@.take(i as int))),
        decreases v.len() - i,
    {
        insert_sorted_exec(&mut out, v[i].clone());
        proof {
            let t = views(v@.take(i + 1));
            assert(t.drop_last() =~= views(v@.take(i as int)));
            assert(t.last() == v@[i as int]@);
        }
        i = i + 1;
    }
    assert(v@.take(v.len() as int) =~= v@);
    out
}

/// `v` with runs of equal neighbours reduced to one element (`Vec::dedup`).
pub fn dedup_strings(v: &Vec<String>) -> (r: Vec<String>)
    ensures
        views(r@) == dedup_adjacent(views(v@)),
{
    let mut out: Vec<String> = Vec::new();
    let mut i: usize = 0;
    while i < v.len()
        invariant
            i <= v.len(),
            views(out@) == dedup_adjacent(views(v@.take(i as int))),
        decreases v.len() - i,
    {
        let ghost t = views(v@.take(i + 1));
        proof {
            assert(t.drop_last() =~= views(v@.take(i as int)));
            assert(t.last() == v@[i as int]@);
        }
        let n = out.len();
        if n > 0 && str_eq(out[n - 1].as_str(), v[i].as_str()) {
            assert(views(out@).last() == out@[n - 1]@);
        } else {
            proof {
                if n > 0 {
                    assert(views(out@).last() == out@[n - 1]@);
                }
            }
            let ghost before = out@;
            out.push(v[i].clone());
            assert(views(out@) =~= views(before).push(v@[i as int]@));
        }
        i = i + 1;
    }
    assert(v@.take(v.len() as int) =~= v@);
    out
}


/// De-duplicating a sorted sequence leaves it strictly sorted, with the same elements.
pub proof fn lemma_dedup_sorted(s: Seq<Seq<char>>)
    requires
        sorted(s),
    ensures
        crate::text::strictly_sorted(dedup_adjacent(s)),
        forall|x: Seq<char>| #[trigger] dedup_adjacent(s).contains(x) <==> s.contains(x),
    decreases s.len(),
{
    if s.len() > 0 {
        let t = s.drop_last();
        assert(sorted(t)) by {
            assert forall|i: int, j: int| 0 <= i < j < t.len() implies seq_le(#[trigger] t[i], #[trigger] t[j]) by {
                assert(t[i] == s[i] && t[j] == s[j]);
            }
        }
        lemma_dedup_sorted(t);
        let d = dedup_adjacent(t);
        let x = s.last();
        assert forall|y: Seq<char>| #[trigger] s.contains(y) <==> (t.contains(y) || y == x) by {
            if s.contains(y) && y != x {
                let i = choose|i: int| 0 <= i < s.len() && s[i] == y;
                assert(t[i] == y);
            }
            if t.contains(y) {
                let i = choose|i: int| 0 <= i < t.len() && t[i] == y;
                assert(s[i] == y);
            }
            if y == x {
                assert(s[s.len() - 1] == y);
            }
        }
        if d.len() > 0 && d.last() == x {
            assert forall|y: Seq<char>| #[trigger] dedup_adjacent(s).contains(y) <==> s.contains(y) by {
                if y == x {
                    assert(d[d.len() - 1] == y);
                }
            }
        } else {
            let e = d.push(x);
            assert(dedup_adjacent(s) == e);
            assert forall|i: int| 0 <= i < d.len() implies seq_lt(#[trigger] d[i], x) by {
                assert(d.contains(d[i]));
                assert(t.contains(d[i]));
                let k = choose|k: int| 0 <= k < t.len() && t[k] == d[i];
                assert(seq_le(s[k], s[s.len() - 1]));
                if d[i] == x {
                    if i < d.len() - 1 {
                        assert(seq_lt(d[i], d[d.len() - 1]));
                        assert(d.contains(d[d.len() - 1]));
                        assert(t.contains(d[d.len() - 1]));
                        let k2 = choose|k2: int| 0 <= k2 < t.len() && t[k2] == d[d.len() - 1];
                        assert(seq_le(s[k2], s[s.len() - 1]));
                        if d[d.len() - 1] != x {
                            lemma_seq_lt_transitive(x, d[d.len() - 1], x);
                        }
                        lemma_seq_lt_irreflexive(x);
                    }
                }
            }
            assert forall|i: int, j: int| 0 <= i < j < e.len() implies seq_lt(#[trigger] e[i], #[trigger] e[j]) by {
                if j < d.len() {
                    assert(e[i] == d[i] && e[j] == d[j]);
                } else {
                    assert(e[i] == d[i]);
                }
            }
            assert forall|y: Seq<char>| #[trigger] e.contains(y) <==> s.contains(y) by {
                if e.contains(y) && y != x {
                    let i = choose|i: int| 0 <= i < e.len() && e[i] == y;
                    assert(d[i] == y);
                }
                if d.contains(y) {
                    let i = choose|i: int| 0 <= i < d.len() && d[i] == y;
                    assert(e[i] == y);
                }
                if y == x {
                    assert(e[e.len() - 1] == y);
                }
            }
        }
    }
}
} // verus!
