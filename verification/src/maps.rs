//! String-keyed maps with distinct keys, modelled as `Map`s of character sequences.
//!
//! `StringMap` stands for a `HashMap<String, String>` and `DepsMap` for a
//! `HashMap<String, Vec<String>>`: inserting a key that is present replaces its value,
//! so a key occurs at most once.

use vstd::prelude::*;
use crate::text::str_eq;

verus! {

/// The views of a sequence of strings.
pub open spec fn views(s: Seq<String>) -> Seq<Seq<char>> {
    s.map_values(|x: String| x@)
}

pub open spec fn pair_views(s: Seq<(String, String)>) -> Seq<(Seq<char>, Seq<char>)> {
    s.map_values(|p: (String, String)| (p.0@, p.1@))
}

/// The value of the last entry with key `k`, if there is one.
pub open spec fn lookup<V>(es: Seq<(Seq<char>, V)>, k: Seq<char>) -> Option<V>
    decreases es.len(),
{
    if es.len() == 0 {
        None
    } else if es.last().0 == k {
        Some(es.last().1)
    } else {
        lookup(es.drop_last(), k)
    }
}

pub open spec fn keys_of<V>(es: Seq<(Seq<char>, V)>) -> Seq<Seq<char>> {
    es.map_values(|p: (Seq<char>, V)| p.0)
}

/// The map that a sequence of insertions builds (later entries win).
pub open spec fn map_of<V>(es: Seq<(Seq<char>, V)>) -> Map<Seq<char>, V> {
    Map::new(|k: Seq<char>| lookup(es, k) is Some, |k: Seq<char>| lookup(es, k)->0)
}

pub proof fn lemma_lookup_some_iff_key<V>(es: Seq<(Seq<char>, V)>, k: Seq<char>)
    ensures
        lookup(es, k) is Some <==> keys_of(es).contains(k),
    decreases es.len(),
{
    if es.len() > 0 {
        lemma_lookup_some_iff_key(es.drop_last(), k);
        assert(keys_of(es.drop_last()) =~= keys_of(es).drop_last());
        if es.last().0 == k {
            assert(keys_of(es)[es.len() - 1] == k);
        }
        if keys_of(es).contains(k) && es.last().0 != k {
            let i = choose|i: int| 0 <= i < keys_of(es).len() && keys_of(es)[i] == k;
            assert(keys_of(es.drop_last())[i] == k);
        }
        if keys_of(es.drop_last()).contains(k) {
            let i = choose|i: int| 0 <= i < keys_of(es.drop_last()).len() && keys_of(es.drop_last())[i] == k;
            assert(keys_of(es)[i] == k);
        }
    }
}

pub proof fn lemma_lookup_at<V>(es: Seq<(Seq<char>, V)>, i: int)
    requires
        0 <= i < es.len(),
        keys_of(es).no_duplicates(),
    ensures
        lookup(es, es[i].0) == Some(es[i].1),
    decreases es.len(),
{
    if i < es.len() - 1 {
        assert(keys_of(es)[i] == es[i].0);
        assert(keys_of(es)[es.len() - 1] == es.last().0);
        assert(keys_of(es.drop_last()) =~= keys_of(es).drop_last());
        lemma_lookup_at(es.drop_last(), i);
    }
}

pub proof fn lemma_lookup_some_entry<V>(es: Seq<(Seq<char>, V)>, k: Seq<char>)
    requires
        lookup(es, k) is Some,
    ensures
        exists|i: int| 0 <= i < es.len() && es[i] == (k, lookup(es, k)->0),
    decreases es.len(),
{
    if es.last().0 == k {
        assert(es[es.len() - 1] == (k, lookup(es, k)->0));
    } else {
        lemma_lookup_some_entry(es.drop_last(), k);
        let i = choose|i: int| 0 <= i < es.drop_last().len() && es.drop_last()[i] == (k, lookup(es.drop_last(), k)->0);
        assert(es[i] == (k, lookup(es, k)->0));
    }
}

/// A sequence without repeats whose elements a finite set holds is no longer than the set.
pub proof fn lemma_distinct_in_set_len<A>(s: Seq<A>, u: Set<A>)
    requires
        s.no_duplicates(),
        u.finite(),
        forall|i: int| 0 <= i < s.len() ==> u.contains(#[trigger] s[i]),
    ensures
        s.len() <= u.len(),
{
    s.unique_seq_to_set();
    assert(s.to_set().subset_of(u));
    vstd::set_lib::lemma_len_subset(s.to_set(), u);
}

pub proof fn lemma_map_of_push<V>(es: Seq<(Seq<char>, V)>, k: Seq<char>, v: V)
    ensures
        map_of(es.push((k, v))) == map_of(es).insert(k, v),
{
    assert(es.push((k, v)).drop_last() =~= es);
    assert(map_of(es.push((k, v))) =~= map_of(es).insert(k, v));
}

pub proof fn lemma_map_of_dom_finite<V>(es: Seq<(Seq<char>, V)>)
    ensures
        map_of(es).dom() == keys_of(es).to_set(),
        map_of(es).dom().finite(),
{
    assert forall|k: Seq<char>| map_of(es).dom().contains(k) <==> keys_of(es).to_set().contains(k) by {
        lemma_lookup_some_iff_key(es, k);
    }
    assert(map_of(es).dom() =~= keys_of(es).to_set());
    keys_of(es).lemma_cardinality_of_set();
}

/// A map from strings to strings: no key occurs twice, entries stay in insertion order.
pub struct StringMap {
    entries: Vec<(String, String)>,
}

impl StringMap {
    #[verifier::type_invariant]
    spec fn wf(self) -> bool {
        keys_of(pair_views(self.entries@)).no_duplicates()
    }

    /// The entries, in insertion order, by their views.
    pub closed spec fn entries_view(self) -> Seq<(Seq<char>, Seq<char>)> {
        pair_views(self.entries@)
    }

    pub open spec fn view(self) -> Map<Seq<char>, Seq<char>> {
        map_of(self.entries_view())
    }

    pub fn new() -> (m: Self)
        ensures
            m@ == Map::<Seq<char>, Seq<char>>::empty(),
            m.entries_view() == Seq::<(Seq<char>, Seq<char>)>::empty(),
    {
        let m = StringMap { entries: Vec::new() };
        assert(m.entries_view() =~= Seq::<(Seq<char>, Seq<char>)>::empty());
        assert(m@ =~= Map::<Seq<char>, Seq<char>>::empty());
        m
    }

    /// Index of the entry with key `k`.
    fn position(&self, k: &str) -> (r: Option<usize>)
        ensures
            match r {
                Some(i) => i < self.entries_view().len() && self.entries_view()[i as int].0 == k@,
                None => !keys_of(self.entries_view()).contains(k@),
            },
    {
        let mut i: usize = 0;
        while i < self.entries.len()
            invariant
                i <= self.entries@.len(),
                forall|j: int| 0 <= j < i ==> self.entries_view()[j].0 != k@,
            decreases self.entries.len() - i,
        {
            if str_eq(self.entries[i].0.as_str(), k) {
                return Some(i);
            }
            i = i + 1;
        }
        proof {
            if keys_of(self.entries_view()).contains(k@) {
                let j = choose|j: int| 0 <= j < keys_of(self.entries_view()).len() && keys_of(self.entries_view())[j] == k@;
                assert(self.entries_view()[j].0 == k@);
            }
        }
        None
    }

    fn copy_entries(&self) -> (r: Vec<(String, String)>)
        ensures
            pair_views(r@) == self.entries_view(),
    {
        let mut out: Vec<(String, String)> = Vec::new();
        let mut i: usize = 0;
        while i < self.entries.len()
            invariant
                i <= self.entries@.len(),
                pair_views(out@) == pair_views(self.entries@.take(i as int)),
            decreases self.entries.len() - i,
        {
            let k = self.entries[i].0.clone();
            let v = self.entries[i].1.clone();
            let ghost before = out@;
            out.push((k, v));
            proof {
                assert(k == self.entries@[i as int].0);
                assert(v == self.entries@[i as int].1);
                assert(out@ =~= before.push((k, v)));
                assert(self.entries@.take(i + 1) =~= self.entries@.take(i as int).push(self.entries@[i as int]));
                assert(pair_views(before.push((k, v))) =~= pair_views(before).push((k@, v@)));
                assert(pair_views(self.entries@.take(i as int).push(self.entries@[i as int])) =~= pair_views(self.entries@.take(i as int)).push((k@, v@)));
                assert(pair_views(out@) =~= pair_views(self.entries@.take(i + 1)));
            }
            i = i + 1;
        }
        assert(self.entries@.take(self.entries@.len() as int) =~= self.entries@);
        out
    }

    /// The value stored under `k` (`HashMap::get`).
    pub fn get(&self, k: &str) -> (r: Option<&String>)
        ensures
            match r {
                Some(v) => self@.contains_key(k@) && self@[k@] == v@,
                None => !self@.contains_key(k@),
            },
    {
        proof {
            use_type_invariant(self);
            lemma_lookup_some_iff_key(self.entries_view(), k@);
        }
        match self.position(k) {
            Some(i) => {
                proof {
                    lemma_lookup_at(self.entries_view(), i as int);
                }
                Some(&self.entries[i].1)
            },
            None => None,
        }
    }

    pub fn contains_key(&self, k: &str) -> (r: bool)
        ensures
            r == self@.contains_key(k@),
    {
        self.get(k).is_some()
    }

    /// Stores `v` under `k`, replacing an earlier value (`HashMap::insert`).
    pub fn insert(&mut self, k: String, v: String)
        ensures
            final(self)@ == old(self)@.insert(k@, v@),
    {
        proof {
            use_type_invariant(&*self);
        }
        let ghost old_es = self.entries_view();
        let mut es = self.copy_entries();
        match self.position(k.as_str()) {
            Some(i) => {
                let ghost e = pair_views(es@);
                es.set(i, (k, v));
                proof {
                    let ne = pair_views(es@);
                    assert(ne =~= e.update(i as int, (e[i as int].0, v@)));
                    assert(keys_of(ne) =~= keys_of(e));
                    assert forall|key: Seq<char>| #[trigger] lookup(ne, key) == (if key == e[i as int].0 { Some(v@) } else { lookup(e, key) }) by {
                        lemma_lookup_update(e, i as int, v@, key);
                    }
                }
            },
            None => {
                es.push((k, v));
                proof {
                    let ne = pair_views(es@);
                    assert(ne =~= old_es.push((k@, v@)));
                    assert(keys_of(ne) =~= keys_of(old_es).push(k@));
                    assert(ne.drop_last() =~= old_es);
                }
            },
        }
        *self = StringMap { entries: es };
        assert(self@ =~= old(self)@.insert(k@, v@));
    }

    /// A map holding the given pairs; a later pair replaces an earlier one with the same key.
    pub fn from_pairs(pairs: Vec<(String, String)>) -> (m: Self)
        ensures
            m@ == map_of(pair_views(pairs@)),
    {
        let mut m = StringMap::new();
        let mut i: usize = 0;
        while i < pairs.len()
            invariant
                i <= pairs.len(),
                m@ == map_of(pair_views(pairs@.take(i as int))),
            decreases pairs.len() - i,
        {
            let k = pairs[i].0.clone();
            let v = pairs[i].1.clone();
            m.insert(k, v);
            proof {
                let s = pair_views(pairs@.take(i + 1));
                assert(s.drop_last() =~= pair_views(pairs@.take(i as int)));
                assert(m@ =~= map_of(s));
            }
            i = i + 1;
        }
        assert(pairs@.take(pairs.len() as int) =~= pairs@);
        m
    }

    pub fn len(&self) -> (r: usize)
        ensures
            r == self@.len(),
    {
        proof {
            use_type_invariant(self);
            lemma_map_of_dom_finite(self.entries_view());
            keys_of(self.entries_view()).unique_seq_to_set();
        }
        self.entries.len()
    }

    /// The stored pairs, in insertion order.
    pub fn entries(&self) -> (r: &Vec<(String, String)>)
        ensures
            pair_views(r@) == self.entries_view(),
    {
        &self.entries
    }

    /// Whether some key maps to `v`.
    pub fn contains_value(&self, v: &str) -> (r: bool)
        ensures
            r == has_value(self@, v@),
    {
        proof {
            use_type_invariant(self);
        }
        let ghost ev = self.entries_view();
        let mut j: usize = 0;
        while j < self.entries.len()
            invariant
                j <= self.entries@.len(),
                ev == self.entries_view(),
                keys_of(ev).no_duplicates(),
                forall|i: int| 0 <= i < j ==> (#[trigger] ev[i]).1 != v@,
            decreases self.entries.len() - j,
        {
            assert(ev[j as int] == (self.entries@[j as int].0@, self.entries@[j as int].1@));
            if str_eq(self.entries[j].1.as_str(), v) {
                proof {
                    lemma_lookup_at(ev, j as int);
                    assert(self@.contains_key(ev[j as int].0));
                }
                return true;
            }
            j = j + 1;
        }
        proof {
            if has_value(self@, v@) {
                let k = choose|k: Seq<char>| #[trigger] self@.contains_key(k) && self@[k] == v@;
                lemma_lookup_some_entry(ev, k);
                let i = choose|i: int| 0 <= i < ev.len() && ev[i] == (k, lookup(ev, k)->0);
                assert(ev[i].1 == v@);
            }
        }
        false
    }
}

/// Some key of `m` maps to `v`.
pub open spec fn has_value(m: Map<Seq<char>, Seq<char>>, v: Seq<char>) -> bool {
    exists|k: Seq<char>| #[trigger] m.contains_key(k) && m[k] == v
}

pub proof fn lemma_lookup_update<V>(e: Seq<(Seq<char>, V)>, i: int, v: V, key: Seq<char>)
    requires
        0 <= i < e.len(),
        keys_of(e).no_duplicates(),
    ensures
        lookup(e.update(i, (e[i].0, v)), key) == (if key == e[i].0 { Some(v) } else { lookup(e, key) }),
    decreases e.len(),
{
    let ne = e.update(i, (e[i].0, v));
    if i == e.len() - 1 {
        assert(ne.drop_last() =~= e.drop_last());
        if key != e[i].0 {
        } else {
        }
    } else {
        assert(keys_of(e)[i] == e[i].0);
        assert(keys_of(e)[e.len() - 1] == e.last().0);
        assert(ne.drop_last() =~= e.drop_last().update(i, (e[i].0, v)));
        assert(keys_of(e.drop_last()) =~= keys_of(e).drop_last());
        lemma_lookup_update(e.drop_last(), i, v, key);
    }
}


pub open spec fn dep_entry_views(s: Seq<(String, Vec<String>)>) -> Seq<(Seq<char>, Seq<Seq<char>>)> {
    s.map_values(|p: (String, Vec<String>)| (p.0@, views(p.1@)))
}

/// A copy of a vector of strings.
pub fn copy_strings(v: &Vec<String>) -> (r: Vec<String>)
    ensures
        r@ == v@,
{
    let mut out: Vec<String> = Vec::new();
    let mut i: usize = 0;
    while i < v.len()
        invariant
            i <= v.len(),
            out@ == v@.take(i as int),
        decreases v.len() - i,
    {
        out.push(v[i].clone());
        assert(out@ =~= v@.take(i + 1));
        i = i + 1;
    }
    assert(v@.take(v.len() as int) =~= v@);
    out
}

/// A map from strings to lists of strings: no key occurs twice, entries stay in insertion order.
pub struct DepsMap {
    entries: Vec<(String, Vec<String>)>,
}

impl DepsMap {
    #[verifier::type_invariant]
    spec fn wf(self) -> bool {
        keys_of(dep_entry_views(self.entries@)).no_duplicates()
    }

    pub closed spec fn entries_view(self) -> Seq<(Seq<char>, Seq<Seq<char>>)> {
        dep_entry_views(self.entries@)
    }

    pub open spec fn view(self) -> Map<Seq<char>, Seq<Seq<char>>> {
        map_of(self.entries_view())
    }

    pub fn new() -> (m: Self)
        ensures
            m@ == Map::<Seq<char>, Seq<Seq<char>>>::empty(),
    {
        let m = DepsMap { entries: Vec::new() };
        assert(m.entries_view() =~= Seq::<(Seq<char>, Seq<Seq<char>>)>::empty());
        assert(m@ =~= Map::<Seq<char>, Seq<Seq<char>>>::empty());
        m
    }

    fn copy_entries(&self) -> (r: Vec<(String, Vec<String>)>)
        ensures
            dep_entry_views(r@) == self.entries_view(),
    {
        let mut out: Vec<(String, Vec<String>)> = Vec::new();
        let mut i: usize = 0;
        while i < self.entries.len()
            invariant
                i <= self.entries@.len(),
                dep_entry_views(out@) == dep_entry_views(self.entries@.take(i as int)),
            decreases self.entries.len() - i,
        {
            let k = self.entries[i].0.clone();
            let v = copy_strings(&self.entries[i].1);
            let ghost before = out@;
            out.push((k, v));
            proof {
                assert(out@ =~= before.push((k, v)));
                assert(self.entries@.take(i + 1) =~= self.entries@.take(i as int).push(self.entries@[i as int]));
                assert(dep_entry_views(before.push((k, v))) =~= dep_entry_views(before).push((k@, views(v@))));
                assert(dep_entry_views(self.entries@.take(i as int).push(self.entries@[i as int])) =~= dep_entry_views(self.entries@.take(i as int)).push((k@, views(v@))));
            }
            i = i + 1;
        }
        assert(self.entries@.take(self.entries@.len() as int) =~= self.entries@);
        out
    }

    fn position(&self, k: &str) -> (r: Option<usize>)
        ensures
            match r {
                Some(i) => i < self.entries_view().len() && self.entries_view()[i as int].0 == k@,
                None => !keys_of(self.entries_view()).contains(k@),
            },
    {
        let mut i: usize = 0;
        while i < self.entries.len()
            invariant
                i <= self.entries@.len(),
                forall|j: int| 0 <= j < i ==> self.entries_view()[j].0 != k@,
            decreases self.entries.len() - i,
        {
            if str_eq(self.entries[i].0.as_str(), k) {
                return Some(i);
            }
            i = i + 1;
        }
        proof {
            if keys_of(self.entries_view()).contains(k@) {
                let j = choose|j: int| 0 <= j < keys_of(self.entries_view()).len() && keys_of(self.entries_view())[j] == k@;
                assert(self.entries_view()[j].0 == k@);
            }
        }
        None
    }

    /// The list stored under `k` (`HashMap::get`).
    pub fn get(&self, k: &str) -> (r: Option<&Vec<String>>)
        ensures
            match r {
                Some(v) => self@.contains_key(k@) && self@[k@] == views(v@),
                None => !self@.contains_key(k@),
            },
    {
        proof {
            use_type_invariant(self);
            lemma_lookup_some_iff_key(self.entries_view(), k@);
        }
        match self.position(k) {
            Some(i) => {
                proof {
                    lemma_lookup_at(self.entries_view(), i as int);
                }
                Some(&self.entries[i].1)
            },
            None => None,
        }
    }

    /// Stores `v` under `k`, replacing an earlier list (`HashMap::insert`).
    pub fn insert(&mut self, k: String, v: Vec<String>)
        ensures
            final(self)@ == old(self)@.insert(k@, views(v@)),
    {
        proof {
            use_type_invariant(&*self);
        }
        let ghost old_es = self.entries_view();
        let ghost vv = views(v@);
        let mut es = self.copy_entries();
        match self.position(k.as_str()) {
            Some(i) => {
                let ghost e = dep_entry_views(es@);
                es.set(i, (k, v));
                proof {
                    let ne = dep_entry_views(es@);
                    assert(ne =~= e.update(i as int, (e[i as int].0, vv)));
                    assert(keys_of(ne) =~= keys_of(e));
                    assert forall|key: Seq<char>| #[trigger] lookup(ne, key) == (if key == e[i as int].0 { Some(vv) } else { lookup(e, key) }) by {
                        lemma_lookup_update(e, i as int, vv, key);
                    }
                }
            },
            None => {
                es.push((k, v));
                proof {
                    let ne = dep_entry_views(es@);
                    assert(ne =~= old_es.push((k@, vv)));
                    assert(keys_of(ne) =~= keys_of(old_es).push(k@));
                    assert(ne.drop_last() =~= old_es);
                }
            },
        }
        *self = DepsMap { entries: es };
        assert(self@ =~= old(self)@.insert(k@, vv));
    }

    /// The stored entries, in insertion order.
    pub fn entries(&self) -> (r: &Vec<(String, Vec<String>)>)
        ensures
            dep_entry_views(r@) == self.entries_view(),
            keys_of(self.entries_view()).no_duplicates(),
    {
        proof {
            use_type_invariant(self);
        }
        &self.entries
    }

    /// The keys, in insertion order.
    pub fn keys(&self) -> (r: Vec<String>)
        ensures
            views(r@) == keys_of(self.entries_view()),
            views(r@).no_duplicates(),
            views(r@).to_set() == self@.dom(),
    {
        proof {
            use_type_invariant(self);
            lemma_map_of_dom_finite(self.entries_view());
        }
        let mut out: Vec<String> = Vec::new();
        let mut i: usize = 0;
        while i < self.entries.len()
            invariant
                i <= self.entries@.len(),
                views(out@) == keys_of(self.entries_view()).take(i as int),
            decreases self.entries.len() - i,
        {
            let ghost before = out@;
            let key = self.entries[i].0.clone();
            out.push(key);
            proof {
                assert(self.entries_view()[i as int].0 == self.entries@[i as int].0@);
                assert(keys_of(self.entries_view())[i as int] == key@);
                assert(views(out@) =~= views(before).push(key@));
                assert(views(out@) =~= keys_of(self.entries_view()).take(i + 1));
            }
            i = i + 1;
        }
        assert(keys_of(self.entries_view()).take(self.entries@.len() as int) =~= keys_of(self.entries_view()));
        out
    }
}

pub proof fn lemma_push_to_set<A>(s: Seq<A>, x: A)
    ensures
        s.push(x).to_set() == s.to_set().insert(x),
{
    assert forall|y: A| s.push(x).to_set().contains(y) <==> s.to_set().insert(x).contains(y) by {
        if s.push(x).contains(y) && y != x {
            let i = choose|i: int| 0 <= i < s.push(x).len() && s.push(x)[i] == y;
            assert(s[i] == y);
        }
        if s.contains(y) {
            let i = choose|i: int| 0 <= i < s.len() && s[i] == y;
            assert(s.push(x)[i] == y);
        }
        if y == x {
            assert(s.push(x)[s.len() as int] == x);
        }
    }
    assert(s.push(x).to_set() =~= s.to_set().insert(x));
}

/// A set of strings, kept in insertion order.
pub struct StringSet {
    items: Vec<String>,
}

impl StringSet {
    #[verifier::type_invariant]
    spec fn wf(self) -> bool {
        views(self.items@).no_duplicates()
    }

    pub closed spec fn view(self) -> Set<Seq<char>> {
        views(self.items@).to_set()
    }

    pub fn new() -> (s: Self)
        ensures
            s@ == Set::<Seq<char>>::empty(),
    {
        let s = StringSet { items: Vec::new() };
        assert(views(s.items@) =~= Seq::<Seq<char>>::empty());
        assert(s@ =~= Set::<Seq<char>>::empty());
        s
    }

    pub fn contains(&self, k: &str) -> (r: bool)
        ensures
            r == self@.contains(k@),
    {
        let mut i: usize = 0;
        while i < self.items.len()
            invariant
                i <= self.items@.len(),
                forall|j: int| 0 <= j < i ==> views(self.items@)[j] != k@,
            decreases self.items.len() - i,
        {
            if str_eq(self.items[i].as_str(), k) {
                assert(views(self.items@)[i as int] == k@);
                return true;
            }
            i = i + 1;
        }
        assert(!views(self.items@).contains(k@));
        false
    }

    /// The number of strings in the set.
    pub fn len(&self) -> (r: usize)
        ensures
            r == self@.len(),
            self@.finite(),
    {
        proof {
            use_type_invariant(self);
            views(self.items@).unique_seq_to_set();
        }
        self.items.len()
    }

    /// Adds `k`; returns whether it was absent (`HashSet::insert`).
    pub fn insert(&mut self, k: String) -> (r: bool)
        ensures
            final(self)@ == old(self)@.insert(k@),
            r == !old(self)@.contains(k@),
    {
        proof {
            use_type_invariant(&*self);
        }
        if self.contains(k.as_str()) {
            assert(self@ =~= self@.insert(k@));
            return false;
        }
        let mut items = copy_strings(&self.items);
        let ghost before = views(items@);
        items.push(k);
        assert(views(items@) =~= before.push(k@));
        proof {
            lemma_push_to_set(before, k@);
        }
        *self = StringSet { items };
        assert(self@ =~= old(self)@.insert(k@));
        true
    }
}
} // verus!
