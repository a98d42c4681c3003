//! Metaobject dependency planning.
//!
//! A definition depends on the types named by `metaobject_definition_type` validations of its
//! fields. Definitions are imported level by level: a type's level is its height in the
//! dependency graph (leaves first). Dependencies on types that the file does not define are
//! "external" and do not affect the levels.

use vstd::prelude::*;
use crate::error::AppError;
use crate::maps::{DepsMap, StringSet, views, map_of, keys_of, lookup, copy_strings, dep_entry_views,
    lemma_lookup_some_iff_key, lemma_lookup_at, lemma_map_of_dom_finite, lemma_lookup_some_entry};
use crate::model::{RuleView, opt_view, lemma_map_values_push, lemma_take_push};
use crate::text::{trim, trim_str, str_eq, concat, strictly_sorted};
use crate::sorting::{sort_seq, sort_strings, dedup_strings, dedup_adjacent, lemma_sort_seq_props,
    lemma_sort_seq_distinct, lemma_strictly_sorted_unique};
use super::types::{MetaobjectDefinitionConfig, MetaobjectValidationRule, DefinitionConfigView,
    FieldConfigView, definition_configs_view, rules_view, copy_rules};

verus! {

pub open spec fn metaobject_definition_type_name() -> Seq<char> {
    "metaobject_definition_type"@
}

/// The type a validation rule depends on, if it names one.
pub open spec fn rule_dep(r: RuleView) -> Option<Seq<char>> {
    if r.name == metaobject_definition_type_name() && r.value is Some && trim(r.value->0).len() > 0 {
        Some(trim(r.value->0))
    } else {
        None
    }
}

pub open spec fn rules_deps(rs: Seq<RuleView>) -> Seq<Seq<char>>
    decreases rs.len(),
{
    if rs.len() == 0 {
        Seq::empty()
    } else {
        let d = rules_deps(rs.drop_last());
        match rule_dep(rs.last()) {
            Some(t) => d.push(t),
            None => d,
        }
    }
}

pub open spec fn field_deps(f: FieldConfigView) -> Seq<Seq<char>> {
    match f.validations {
        Some(rs) => rules_deps(rs),
        None => Seq::empty(),
    }
}

pub open spec fn fields_deps(fs: Seq<FieldConfigView>) -> Seq<Seq<char>>
    decreases fs.len(),
{
    if fs.len() == 0 {
        Seq::empty()
    } else {
        fields_deps(fs.drop_last()) + field_deps(fs.last())
    }
}

/// `s` without repeats, keeping first occurrences in order.
pub open spec fn dedup_stable(s: Seq<Seq<char>>) -> Seq<Seq<char>>
    decreases s.len(),
{
    if s.len() == 0 {
        s
    } else {
        let d = dedup_stable(s.drop_last());
        if d.contains(s.last()) {
            d
        } else {
            d.push(s.last())
        }
    }
}

/// The types a definition depends on, in order of first mention.
pub open spec fn metaobject_deps(d: DefinitionConfigView) -> Seq<Seq<char>> {
    dedup_stable(fields_deps(d.field_definitions))
}

/// The elements of `s` that `set` holds, in order.
pub open spec fn keep_in(s: Seq<Seq<char>>, set: Set<Seq<char>>) -> Seq<Seq<char>>
    decreases s.len(),
{
    if s.len() == 0 {
        s
    } else if set.contains(s.last()) {
        keep_in(s.drop_last(), set).push(s.last())
    } else {
        keep_in(s.drop_last(), set)
    }
}

/// The elements of `s` that `set` does not hold, in order.
pub open spec fn keep_out(s: Seq<Seq<char>>, set: Set<Seq<char>>) -> Seq<Seq<char>>
    decreases s.len(),
{
    if s.len() == 0 {
        s
    } else if set.contains(s.last()) {
        keep_out(s.drop_last(), set)
    } else {
        keep_out(s.drop_last(), set).push(s.last())
    }
}

pub open spec fn def_types(defs: Seq<DefinitionConfigView>) -> Set<Seq<char>> {
    defs.map_values(|d: DefinitionConfigView| d.typ).to_set()
}

/// One entry per definition: its type and its dependencies on types of `defs`.
pub open spec fn internal_dep_entries(defs: Seq<DefinitionConfigView>) -> Seq<(Seq<char>, Seq<Seq<char>>)> {
    defs.map_values(|d: DefinitionConfigView| (d.typ, keep_in(metaobject_deps(d), def_types(defs))))
}

proof fn lemma_dedup_push(s: Seq<Seq<char>>, x: Seq<char>)
    ensures
        dedup_stable(s.push(x)) == (if dedup_stable(s).contains(x) { dedup_stable(s) } else {
            dedup_stable(s).push(x)
        }),
{
    assert(s.push(x).drop_last() =~= s);
}

/// The types that `def` depends on through `metaobject_definition_type` validations
/// (trimmed, non-empty, first occurrences in order).
pub fn extract_metaobject_deps(def: &MetaobjectDefinitionConfig) -> (r: Vec<String>)
    ensures
        views(r@) == metaobject_deps(def@),
{
    let ghost fs = def@.field_definitions;
    let mut out: Vec<String> = Vec::new();
    let mut i: usize = 0;
    while i < def.field_definitions.len()
        invariant
            i <= def.field_definitions.len(),
            fs == def@.field_definitions,
            views(out@) == dedup_stable(fields_deps(fs.take(i as int))),
        decreases def.field_definitions.len() - i,
    {
        let field = &def.field_definitions[i];
        let ghost base = fields_deps(fs.take(i as int));
        proof {
            assert(fs.take(i + 1).drop_last() =~= fs.take(i as int));
            assert(fs.take(i + 1).last() == field@);
        }
        match &field.validations {
            None => {
                assert(fields_deps(fs.take(i + 1)) =~= base);
            },
            Some(rules) => {
                let ghost rs = rules_view(rules@);
                let mut j: usize = 0;
                assert(base + rules_deps(rs.take(0)) =~= base);
                while j < rules.len()
                    invariant
                        j <= rules.len(),
                        rs == rules_view(rules@),
                        views(out@) == dedup_stable(base + rules_deps(rs.take(j as int))),
                    decreases rules.len() - j,
                {
                    let rule = &rules[j];
                    proof {
                        assert(rs.take(j + 1).drop_last() =~= rs.take(j as int));
                        assert(rs.take(j + 1).last() == rule@);
                    }
                    if str_eq(rule.name.as_str(), "metaobject_definition_type") {
                        match &rule.value {
                            Some(t) => {
                                let tt = trim_str(t.as_str());
                                if !tt.as_str().is_empty() {
                                    proof {
                                        assert(tt@.len() > 0);
                                        assert(base + rules_deps(rs.take(j + 1)) =~= (base
                                            + rules_deps(rs.take(j as int))).push(tt@));
                                        lemma_dedup_push(base + rules_deps(rs.take(j as int)), tt@);
                                    }
                                    if !contains_string(&out, tt.as_str()) {
                                        let ghost before = out@;
                                        out.push(tt);
                                        proof {
                                            lemma_map_values_push(before, tt, |x: String| x@);
                                        }
                                    }
                                } else {
                                    proof {
                                        assert(tt@.len() == 0);
                                        assert(base + rules_deps(rs.take(j + 1)) =~= base + rules_deps(
                                            rs.take(j as int),
                                        ));
                                    }
                                }
                            },
                            None => {
                                assert(base + rules_deps(rs.take(j + 1)) =~= base + rules_deps(
                                    rs.take(j as int),
                                ));
                            },
                        }
                    } else {
                        assert(base + rules_deps(rs.take(j + 1)) =~= base + rules_deps(
                            rs.take(j as int),
                        ));
                    }
                    j = j + 1;
                }
                proof {
                    assert(rs.take(rules.len() as int) =~= rs);
                    assert(field@.validations == Some(rs));
                    assert(fields_deps(fs.take(i + 1)) =~= base + rules_deps(rs));
                }
            },
        }
        i = i + 1;
    }
    assert(fs.take(def.field_definitions.len() as int) =~= fs);
    out
}

/// Whether `v` holds a string equal to `s`.
pub fn contains_string(v: &Vec<String>, s: &str) -> (r: bool)
    ensures
        r == views(v@).contains(s@),
{
    let mut i: usize = 0;
    while i < v.len()
        invariant
            i <= v.len(),
            forall|j: int| 0 <= j < i ==> views(v@)[j] != s@,
        decreases v.len() - i,
    {
        if str_eq(v[i].as_str(), s) {
            assert(views(v@)[i as int] == s@);
            return true;
        }
        i = i + 1;
    }
    false
}


/// The elements of `s` that `set` holds, in order.
pub fn keep_in_set(s: &Vec<String>, set: &StringSet) -> (r: Vec<String>)
    ensures
        views(r@) == keep_in(views(s@), set@),
{
    let mut out: Vec<String> = Vec::new();
    let mut i: usize = 0;
    while i < s.len()
        invariant
            i <= s.len(),
            views(out@) == keep_in(views(s@.take(i as int)), set@),
        decreases s.len() - i,
    {
        let ghost t = views(s@.take(i + 1));
        proof {
            lemma_take_push(s@, i as int);
            lemma_map_values_push(s@.take(i as int), s@[i as int], |x: String| x@);
            assert(t.drop_last() =~= views(s@.take(i as int)));
        }
        if set.contains(s[i].as_str()) {
            let ghost before = out@;
            out.push(s[i].clone());
            proof {
                lemma_map_values_push(before, s@[i as int], |x: String| x@);
            }
        }
        i = i + 1;
    }
    assert(s@.take(s.len() as int) =~= s@);
    out
}

/// The dependency map restricted to types that `defs` defines, and the set of those types.
/// The set of the definitions' types.
pub fn definition_types(defs: &Vec<MetaobjectDefinitionConfig>) -> (r: StringSet)
    ensures
        r@ == def_types(definition_configs_view(defs@)),
{
    let ghost dv = definition_configs_view(defs@);
    let mut types = StringSet::new();
    let mut i: usize = 0;
    assert(dv.take(0).map_values(|d: DefinitionConfigView| d.typ).to_set() =~= Set::<Seq<char>>::empty());
    while i < defs.len()
        invariant
            i <= defs.len(),
            dv == definition_configs_view(defs@),
            types@ == def_types(dv.take(i as int)),
        decreases defs.len() - i,
    {
        types.insert(defs[i].typ.clone());
        proof {
            lemma_take_push(dv, i as int);
            lemma_map_values_push(dv.take(i as int), dv[i as int], |d: DefinitionConfigView| d.typ);
            crate::maps::lemma_push_to_set(dv.take(i as int).map_values(|d: DefinitionConfigView| d.typ), dv[i as int].typ);
        }
        i = i + 1;
    }
    assert(dv.take(defs.len() as int) =~= dv);
    types
}

pub fn build_internal_deps_map(defs: &Vec<MetaobjectDefinitionConfig>) -> (r: (DepsMap, StringSet))
    ensures
        r.0@ == map_of(internal_dep_entries(definition_configs_view(defs@))),
        r.1@ == def_types(definition_configs_view(defs@)),
{
    let ghost dv = definition_configs_view(defs@);
    let types = definition_types(defs);
    let mut deps = DepsMap::new();
    let ghost es = internal_dep_entries(dv);
    let mut i: usize = 0;
    assert(map_of(es.take(0)) =~= Map::<Seq<char>, Seq<Seq<char>>>::empty());
    while i < defs.len()
        invariant
            i <= defs.len(),
            dv == definition_configs_view(defs@),
            es == internal_dep_entries(dv),
            types@ == def_types(dv),
            deps@ == map_of(es.take(i as int)),
        decreases defs.len() - i,
    {
        let all = extract_metaobject_deps(&defs[i]);
        let internal = keep_in_set(&all, &types);
        let ghost k = defs@[i as int].typ@;
        deps.insert(defs[i].typ.clone(), internal);
        proof {
            lemma_take_push(es, i as int);
            assert(es[i as int] == (k, views(internal@)));
            crate::maps::lemma_map_of_push(es.take(i as int), k, views(internal@));
        }
        i = i + 1;
    }
    assert(es.take(defs.len() as int) =~= es);
    (deps, types)
}

// -------------------------------------------------------------------------------------------------
// Levels
// -------------------------------------------------------------------------------------------------

/// The dependencies of `n` in `g` (none when `g` has no entry for it).
pub open spec fn children(g: Map<Seq<char>, Seq<Seq<char>>>, n: Seq<char>) -> Seq<Seq<char>> {
    if g.contains_key(n) {
        g[n]
    } else {
        Seq::empty()
    }
}

/// `h[n]` is one more than the largest height of a dependency of `n`, or 0 without any.
pub open spec fn height_rule(g: Map<Seq<char>, Seq<Seq<char>>>, h: Map<Seq<char>, nat>, n: Seq<char>) -> bool {
    let cs = children(g, n);
    &&& forall|i: int| 0 <= i < cs.len() ==> h.contains_key(#[trigger] cs[i]) && h[cs[i]] < h[n]
    &&& cs.len() == 0 ==> h[n] == 0
    &&& cs.len() > 0 ==> exists|i: int| 0 <= i < cs.len() && h[n] == h[#[trigger] cs[i]] + 1
}

/// `h` assigns every node it covers its height in `g`.
pub open spec fn valid_heights(g: Map<Seq<char>, Seq<Seq<char>>>, h: Map<Seq<char>, nat>) -> bool {
    forall|n: Seq<char>| h.contains_key(n) ==> #[trigger] height_rule(g, h, n)
}

/// `g` has heights for all of its keys: no dependency cycle.
pub open spec fn acyclic(g: Map<Seq<char>, Seq<Seq<char>>>) -> bool {
    exists|h: Map<Seq<char>, nat>| valid_heights(g, h) && g.dom().subset_of(h.dom())
}

/// Consecutive elements of `p` are dependency edges of `g`.
pub open spec fn is_path(g: Map<Seq<char>, Seq<Seq<char>>>, p: Seq<Seq<char>>) -> bool {
    forall|i: int| 0 <= i < p.len() - 1 ==> children(g, #[trigger] p[i]).contains(p[i + 1])
}

/// `n` lies on a dependency cycle of `g`.
pub open spec fn on_cycle(g: Map<Seq<char>, Seq<Seq<char>>>, n: Seq<char>) -> bool {
    exists|p: Seq<Seq<char>>| p.len() >= 2 && p[0] == n && p.last() == n && is_path(g, p)
}

pub open spec fn cycle_message(n: Seq<char>) -> Seq<char> {
    "cycle detected in metaobject dependency graph at `"@ + n + "`"@
}

/// Depth-first search from `n` with the set `vis` of nodes already finished and the stack `p`
/// of nodes being searched, each a dependency of the one before: the finished nodes afterwards,
/// or the first node reached that is already on the stack. (Every node on a stack but the last
/// has dependencies, so a stack holds at most one node more than `g` has keys.)
pub open spec fn dfs_visit(
    g: Map<Seq<char>, Seq<Seq<char>>>,
    vis: Set<Seq<char>>,
    p: Seq<Seq<char>>,
    n: Seq<char>,
) -> Result<Set<Seq<char>>, Seq<char>>
    decreases g.dom().len() + 1 - p.len(), 0int, 0int,
{
    if vis.contains(n) {
        Ok(vis)
    } else if p.contains(n) {
        Err(n)
    } else if p.len() > g.dom().len() {
        Ok(vis)
    } else {
        match dfs_children(g, vis, p.push(n), children(g, n), 0) {
            Ok(v2) => Ok(v2.insert(n)),
            Err(e) => Err(e),
        }
    }
}

/// The search of `dfs_visit` from `cs[i]`, `cs[i + 1]`, ... in turn, stopping at the first cycle.
pub open spec fn dfs_children(
    g: Map<Seq<char>, Seq<Seq<char>>>,
    vis: Set<Seq<char>>,
    p: Seq<Seq<char>>,
    cs: Seq<Seq<char>>,
    i: int,
) -> Result<Set<Seq<char>>, Seq<char>>
    decreases g.dom().len() + 1 - p.len(), 1int, cs.len() - i,
{
    if i < 0 || i >= cs.len() {
        Ok(vis)
    } else {
        match dfs_visit(g, vis, p, cs[i]) {
            Ok(v2) => dfs_children(g, v2, p, cs, i + 1),
            Err(e) => Err(e),
        }
    }
}

/// The search of `dfs_visit` from `ks[i]`, `ks[i + 1]`, ... in turn, each with an empty stack.
pub open spec fn dfs_keys(
    g: Map<Seq<char>, Seq<Seq<char>>>,
    vis: Set<Seq<char>>,
    ks: Seq<Seq<char>>,
    i: int,
) -> Result<Set<Seq<char>>, Seq<char>>
    decreases ks.len() - i,
{
    if i < 0 || i >= ks.len() {
        Ok(vis)
    } else {
        match dfs_visit(g, vis, Seq::empty(), ks[i]) {
            Ok(v2) => dfs_keys(g, v2, ks, i + 1),
            Err(e) => Err(e),
        }
    }
}

/// The keys of `g` in ascending order.
pub open spec fn sorted_keys(g: Map<Seq<char>, Seq<Seq<char>>>) -> Seq<Seq<char>> {
    choose|s: Seq<Seq<char>>| strictly_sorted(s) && s.to_set() == g.dom()
}

/// The depth-first search of `g` from its keys in ascending order, each visiting the
/// dependencies of a node in their listed order: `Err(n)` names the first node found on a
/// cycle.
pub open spec fn dependency_search(g: Map<Seq<char>, Seq<Seq<char>>>) -> Result<Set<Seq<char>>, Seq<char>> {
    dfs_keys(g, Set::empty(), sorted_keys(g), 0)
}

/// The elements of `ks` whose height is `k`, in order.
pub open spec fn nodes_at(ks: Seq<Seq<char>>, h: Map<Seq<char>, nat>, k: nat) -> Seq<Seq<char>>
    decreases ks.len(),
{
    if ks.len() == 0 {
        ks
    } else if h[ks.last()] == k {
        nodes_at(ks.drop_last(), h, k).push(ks.last())
    } else {
        nodes_at(ks.drop_last(), h, k)
    }
}

/// The non-empty groups of `ks` by height, for heights `from..=to` in ascending order.
pub open spec fn levels_by_height(ks: Seq<Seq<char>>, h: Map<Seq<char>, nat>, from: nat, to: nat) -> Seq<Seq<Seq<char>>>
    decreases to + 1 - from,
{
    if from > to {
        Seq::empty()
    } else {
        let lvl = nodes_at(ks, h, from);
        let rest = levels_by_height(ks, h, from + 1, to);
        if lvl.len() == 0 {
            rest
        } else {
            seq![lvl] + rest
        }
    }
}

/// The largest height of an element of `ks` (0 for none).
pub open spec fn max_height(ks: Seq<Seq<char>>, h: Map<Seq<char>, nat>) -> nat
    decreases ks.len(),
{
    if ks.len() == 0 {
        0
    } else {
        let m = max_height(ks.drop_last(), h);
        if h[ks.last()] > m {
            h[ks.last()]
        } else {
            m
        }
    }
}

/// The levels of the keys `ks` under the heights `h`.
pub open spec fn levels_of(ks: Seq<Seq<char>>, h: Map<Seq<char>, nat>) -> Seq<Seq<Seq<char>>> {
    levels_by_height(ks, h, 0, max_height(ks, h))
}

pub open spec fn levels_view(l: Seq<Vec<String>>) -> Seq<Seq<Seq<char>>> {
    l.map_values(|v: Vec<String>| views(v@))
}

pub open spec fn heights_view(hs: Seq<(String, usize)>) -> Seq<(Seq<char>, nat)> {
    hs.map_values(|p: (String, usize)| (p.0@, p.1 as nat))
}

/// Along a path, heights strictly decrease.
proof fn lemma_path_heights_decrease(g: Map<Seq<char>, Seq<Seq<char>>>, h: Map<Seq<char>, nat>, p: Seq<Seq<char>>, i: int)
    requires
        valid_heights(g, h),
        is_path(g, p),
        0 <= i < p.len(),
        p.len() >= 2,
        h.contains_key(p[0]),
    ensures
        h.contains_key(p[i]),
        h[p[i]] + i <= h[p[0]],
    decreases i,
{
    if i > 0 {
        lemma_path_heights_decrease(g, h, p, i - 1);
        assert(children(g, p[i - 1]).contains(p[i]));
        assert(height_rule(g, h, p[i - 1]));
        let cs = children(g, p[i - 1]);
        let j = choose|j: int| 0 <= j < cs.len() && cs[j] == p[i];
        assert(h.contains_key(cs[j]));
    }
}

/// A graph with heights for all of its keys has no cycle.
pub proof fn lemma_cycle_not_acyclic(g: Map<Seq<char>, Seq<Seq<char>>>, n: Seq<char>)
    requires
        on_cycle(g, n),
    ensures
        !acyclic(g),
{
    if acyclic(g) {
        let h = choose|h: Map<Seq<char>, nat>| valid_heights(g, h) && g.dom().subset_of(h.dom());
        let p = choose|p: Seq<Seq<char>>| p.len() >= 2 && p[0] == n && p.last() == n && is_path(g, p);
        assert(children(g, p[0]).contains(p[1]));
        assert(g.contains_key(p[0]));
        lemma_path_heights_decrease(g, h, p, p.len() - 1);
    }
}

/// The recorded height of `k`, searching from the most recent record.
fn find_height(hs: &Vec<(String, usize)>, k: &String) -> (r: Option<usize>)
    ensures
        match r {
            Some(v) => lookup(heights_view(hs@), k@) == Some(v as nat),
            None => lookup(heights_view(hs@), k@) is None,
        },
{
    let mut i = hs.len();
    assert(heights_view(hs@).take(i as int) =~= heights_view(hs@));
    while i > 0
        invariant
            i <= hs.len(),
            lookup(heights_view(hs@), k@) == lookup(heights_view(hs@).take(i as int), k@),
        decreases i,
    {
        let ghost t = heights_view(hs@).take(i as int);
        assert(t.last() == (hs@[i - 1].0@, hs@[i - 1].1 as nat));
        assert(t.drop_last() =~= heights_view(hs@).take(i - 1));
        if str_eq(hs[i - 1].0.as_str(), k.as_str()) {
            return Some(hs[i - 1].1);
        }
        i = i - 1;
    }
    None
}

/// State of the height computation: `hs` records heights consistent with `g`, all within the
/// node universe `u`, each smaller than the number of records.
pub open spec fn heights_ok(g: Map<Seq<char>, Seq<Seq<char>>>, hs: Seq<(String, usize)>, u: Set<Seq<char>>) -> bool {
    let h = map_of(heights_view(hs));
    &&& valid_heights(g, h)
    &&& forall|m: Seq<char>| #[trigger] h.contains_key(m) ==> u.contains(m) && h[m] < hs.len()
}

/// `p` is the current DFS stack: distinct nodes of `u`, none with a recorded height, each a
/// dependency of the previous one.
pub open spec fn stack_ok(g: Map<Seq<char>, Seq<Seq<char>>>, hs: Seq<(String, usize)>, p: Seq<Seq<char>>, u: Set<Seq<char>>) -> bool {
    &&& p.no_duplicates()
    &&& forall|i: int| 0 <= i < p.len() ==> u.contains(#[trigger] p[i]) && !map_of(heights_view(hs)).contains_key(p[i])
    &&& is_path(g, p)
}

/// The universe is closed under dependencies.
pub open spec fn universe_ok(g: Map<Seq<char>, Seq<Seq<char>>>, u: Set<Seq<char>>) -> bool {
    &&& u.finite()
    &&& forall|m: Seq<char>| #[trigger] g.contains_key(m) ==> u.contains(m)
    &&& forall|m: Seq<char>, i: int| g.contains_key(m) && 0 <= i < g[m].len() ==> u.contains(#[trigger] g[m][i])
}

proof fn lemma_extend_valid(g: Map<Seq<char>, Seq<Seq<char>>>, h: Map<Seq<char>, nat>, n: Seq<char>, v: nat)
    requires
        valid_heights(g, h),
        !h.contains_key(n),
        height_rule(g, h.insert(n, v), n),
    ensures
        valid_heights(g, h.insert(n, v)),
{
    let h2 = h.insert(n, v);
    assert forall|m: Seq<char>| #[trigger] h2.contains_key(m) implies height_rule(g, h2, m) by {
        if m != n {
            assert(height_rule(g, h, m));
            let cs = children(g, m);
            assert forall|i: int| 0 <= i < cs.len() implies h2.contains_key(#[trigger] cs[i]) && h2[cs[i]] < h2[m] by {
                assert(h.contains_key(cs[i]));
            }
            if cs.len() > 0 {
                let i = choose|i: int| 0 <= i < cs.len() && h[m] == h[#[trigger] cs[i]] + 1;
                assert(h.contains_key(cs[i]));
                assert(h2[m] == h2[cs[i]] + 1);
            }
        }
    }
}

fn stack_contains(p: &Vec<String>, n: &String) -> (r: Option<usize>)
    ensures
        match r {
            Some(i) => i < p.len() && p@[i as int]@ == n@,
            None => !views(p@).contains(n@),
        },
{
    let mut i: usize = 0;
    while i < p.len()
        invariant
            i <= p.len(),
            forall|j: int| 0 <= j < i ==> views(p@)[j] != n@,
        decreases p.len() - i,
    {
        if str_eq(p[i].as_str(), n.as_str()) {
            return Some(i);
        }
        i = i + 1;
    }
    None
}

/// Height of `node` by depth-first search, recording heights in `hs`; `p` is the search stack.
/// On a cycle it names the node that was reached twice.
fn height_of(
    node: &String,
    g: &DepsMap,
    hs: &mut Vec<(String, usize)>,
    p: &mut Vec<String>,
    Ghost(u): Ghost<Set<Seq<char>>>,
) -> (r: Result<usize, String>)
    requires
        universe_ok(g@, u),
        u.contains(node@),
        heights_ok(g@, old(hs)@, u),
        stack_ok(g@, old(hs)@, views(old(p)@), u),
        views(old(p)@).len() > 0 ==> children(g@, views(old(p)@).last()).contains(node@),
    ensures
        match r {
            Ok(v) => {
                let h0 = map_of(heights_view(old(hs)@));
                let h1 = map_of(heights_view(final(hs)@));
                &&& final(p)@ == old(p)@
                &&& heights_ok(g@, final(hs)@, u)
                &&& stack_ok(g@, final(hs)@, views(final(p)@), u)
                &&& h1.contains_key(node@)
                &&& h1[node@] == v as nat
                &&& forall|m: Seq<char>| #[trigger] h0.contains_key(m) ==> h1.contains_key(m) && h1[m] == h0[m]
            },
            Err(n) => on_cycle(g@, n@),
        },
        r is Ok ==> dfs_visit(g@, map_of(heights_view(old(hs)@)).dom(), views(old(p)@), node@)
            == Ok::<Set<Seq<char>>, Seq<char>>(map_of(heights_view(final(hs)@)).dom()),
        r matches Err(n) ==> dfs_visit(g@, map_of(heights_view(old(hs)@)).dom(), views(old(p)@), node@)
            == Err::<Set<Seq<char>>, Seq<char>>(n@),
    decreases u.len() - views(old(p)@).len(),
{
    let ghost pv0 = views(p@);
    let ghost v0 = map_of(heights_view(hs@)).dom();
    proof {
        crate::maps::lemma_distinct_in_set_len(pv0, u);
    }
    if let Some(v) = find_height(hs, node) {
        return Ok(v);
    }
    match stack_contains(p, node) {
        Some(k) => {
            proof {
                let cyc = pv0.skip(k as int).push(node@);
                assert(pv0[k as int] == node@);
                assert(cyc[0] == node@);
                assert forall|i: int| 0 <= i < cyc.len() - 1 implies children(g@, #[trigger] cyc[i]).contains(cyc[i + 1]) by {
                    if i < cyc.len() - 2 {
                        assert(cyc[i] == pv0[k + i]);
                        assert(cyc[i + 1] == pv0[k + i + 1]);
                    } else {
                        assert(cyc[i] == pv0.last());
                    }
                }
                assert(is_path(g@, cyc));
                assert(cyc.last() == node@);
                assert(on_cycle(g@, node@));
                assert(pv0.contains(node@));
            }
            return Err(node.clone());
        },
        None => {},
    }
    let ghost h_entry = map_of(heights_view(hs@));
    p.push(node.clone());
    let ghost pv1 = views(p@);
    let ghost p1 = p@;
    proof {
        assert(p1.drop_last() =~= old(p)@);
        lemma_map_values_push(old(p)@, *node, |x: String| x@);
        assert(pv1 == pv0.push(node@));
        assert(pv1.no_duplicates());
        crate::maps::lemma_distinct_in_set_len(pv1, u);
    }
    let deps: Vec<String> = match g.get(node.as_str()) {
        Some(d) => copy_strings(d),
        None => Vec::new(),
    };
    assert(views(deps@) == children(g@, node@));
    let ghost cs = children(g@, node@);
    proof {
        assert(!pv0.contains(node@));
        assert(!v0.contains(node@));
        crate::maps::lemma_map_of_dom_finite(g.entries_view());
        assert forall|j: int| 0 <= j < pv0.len() implies g@.dom().contains(#[trigger] pv0[j]) by {
            if j < pv0.len() - 1 {
                assert(children(g@, pv0[j]).contains(pv0[j + 1]));
            } else {
                assert(children(g@, pv0.last()).contains(node@));
            }
        }
        crate::maps::lemma_distinct_in_set_len(pv0, g@.dom());
        assert(dfs_visit(g@, v0, pv0, node@) == (match dfs_children(g@, v0, pv1, cs, 0) {
            Ok(v2) => Ok(v2.insert(node@)),
            Err(e) => Err(e),
        }));
    }
    let mut max_child: usize = 0;
    let mut i: usize = 0;
    while i < deps.len()
        invariant
            universe_ok(g@, u),
            u.contains(node@),
            views(deps@) == children(g@, node@),
            i <= deps.len(),
            views(p@) == pv1,
            p@ == p1,
            p1.drop_last() == old(p)@,
            pv1 == pv0.push(node@),
            heights_ok(g@, hs@, u),
            stack_ok(g@, hs@, pv1, u),
            pv1.len() <= u.len(),
            forall|m: Seq<char>| #[trigger] h_entry.contains_key(m) ==> map_of(heights_view(hs@)).contains_key(m) && map_of(heights_view(hs@))[m] == h_entry[m],
            forall|j: int| 0 <= j < i ==> map_of(heights_view(hs@)).contains_key(#[trigger] views(deps@)[j]) && map_of(heights_view(hs@))[views(deps@)[j]] <= max_child,
            i > 0 ==> exists|j: int| 0 <= j < i && map_of(heights_view(hs@))[#[trigger] views(deps@)[j]] == max_child,
            i > 0 ==> max_child < hs@.len(),
            cs == children(g@, node@),
            v0 == map_of(heights_view(old(hs)@)).dom(),
            pv0 == views(old(p)@),
            dfs_visit(g@, v0, pv0, node@) == (match dfs_children(g@, v0, pv1, cs, 0) {
                Ok(v2) => Ok(v2.insert(node@)),
                Err(e) => Err(e),
            }),
            dfs_children(g@, v0, pv1, cs, 0) == dfs_children(g@, map_of(heights_view(hs@)).dom(), pv1, cs, i as int),
        decreases deps.len() - i,
    {
        let ghost h_before = map_of(heights_view(hs@));
        proof {
            assert(views(deps@).len() == deps@.len());
            assert(g@.contains_key(node@));
            assert(g@[node@][i as int] == views(deps@)[i as int]);
            assert(u.contains(views(deps@)[i as int]));
            assert(views(deps@)[i as int] == deps@[i as int]@);
            assert(children(g@, pv1.last()).contains(deps@[i as int]@));
        }
        let hc = match height_of(&deps[i], g, hs, p, Ghost(u)) {
            Ok(v) => v,
            Err(e) => {
                proof {
                    assert(cs[i as int] == deps@[i as int]@);
                    assert(dfs_children(g@, h_before.dom(), pv1, cs, i as int) == Err::<Set<Seq<char>>, Seq<char>>(e@));
                    assert(dfs_visit(g@, v0, pv0, node@) == Err::<Set<Seq<char>>, Seq<char>>(e@));
                }
                return Err(e);
            },
        };
        let ghost h_after = map_of(heights_view(hs@));
        proof {
            assert(cs[i as int] == deps@[i as int]@);
            assert(dfs_children(g@, h_before.dom(), pv1, cs, i as int) == dfs_children(g@, h_after.dom(), pv1, cs, i + 1));
        }
        if hc > max_child || i == 0 {
            max_child = hc;
        }
        proof {
            assert forall|j: int| 0 <= j <= i implies h_after.contains_key(#[trigger] views(deps@)[j]) && h_after[views(deps@)[j]] <= max_child by {
                if j < i {
                    assert(h_before.contains_key(views(deps@)[j]));
                }
            }
            assert(views(deps@)[i as int] == deps@[i as int]@);
            if hc == max_child {
                assert(h_after[views(deps@)[i as int]] == max_child);
            } else {
                assert(i > 0);
                let j = choose|j: int| 0 <= j < i && h_before[#[trigger] views(deps@)[j]] == max_child;
                assert(h_before.contains_key(views(deps@)[j]));
                assert(h_after[views(deps@)[j]] == max_child);
            }
        }
        i = i + 1;
    }
    let hl = hs.len();
    assert(deps.len() > 0 ==> max_child < hl);
    let value: usize = if deps.len() == 0 {
        0
    } else {
        max_child + 1
    };
    let ghost h_mid = map_of(heights_view(hs@));
    p.pop();
    proof {
        assert(p@ =~= old(p)@);
        assert(views(p@) =~= pv0);
    }
    let ghost hs_mid = hs@;
    hs.push((node.clone(), value));
    proof {
        let hv = heights_view(hs@);
        assert(hv =~= heights_view(hs_mid).push((node@, value as nat)));
        crate::maps::lemma_map_of_push(heights_view(hs_mid), node@, value as nat);
        let h2 = map_of(hv);
        assert(!h_mid.contains_key(node@)) by {
            assert(pv1[pv1.len() - 1] == node@);
        }
        assert(height_rule(g@, h2, node@)) by {
            let cs = children(g@, node@);
            assert forall|j: int| 0 <= j < cs.len() implies h2.contains_key(#[trigger] cs[j]) && h2[cs[j]] < h2[node@] by {
                assert(cs[j] == views(deps@)[j]);
                assert(h_mid.contains_key(views(deps@)[j]));
                assert(cs[j] != node@);
            }
            if cs.len() > 0 {
                let j = choose|j: int| 0 <= j < deps.len() && h_mid[#[trigger] views(deps@)[j]] == max_child;
                assert(cs[j] == views(deps@)[j]);
                assert(h_mid.contains_key(cs[j]));
                assert(cs[j] != node@);
            }
        }
        lemma_extend_valid(g@, h_mid, node@, value as nat);
        assert(dfs_children(g@, h_mid.dom(), pv1, cs, deps.len() as int) == Ok::<Set<Seq<char>>, Seq<char>>(h_mid.dom()));
        assert(h2.dom() == h_mid.dom().insert(node@));
        assert forall|m: Seq<char>| #[trigger] h2.contains_key(m) implies u.contains(m) && h2[m] < hs@.len() by {
            if m != node@ {
                assert(h_mid.contains_key(m));
            }
        }
        assert forall|j: int| 0 <= j < pv0.len() implies u.contains(#[trigger] pv0[j]) && !h2.contains_key(pv0[j]) by {
            assert(pv1[j] == pv0[j]);
            assert(pv0[j] != node@) by {
                assert(pv1[pv1.len() - 1] == node@);
            }
        }
        assert forall|j: int| 0 <= j < pv0.len() - 1 implies children(g@, #[trigger] pv0[j]).contains(pv0[j + 1]) by {
            assert(pv1[j] == pv0[j]);
            assert(pv1[j + 1] == pv0[j + 1]);
        }
    }
    Ok(value)
}

/// Every node that the entries `es` mention: their keys and their dependencies.
pub open spec fn mentioned(es: Seq<(Seq<char>, Seq<Seq<char>>)>) -> Set<Seq<char>> {
    Set::new(|m: Seq<char>| exists|j: int| #![trigger es[j]] 0 <= j < es.len() && (es[j].0 == m || es[j].1.contains(m)))
}

proof fn lemma_mentioned_finite(es: Seq<(Seq<char>, Seq<Seq<char>>)>)
    ensures
        mentioned(es).finite(),
    decreases es.len(),
{
    broadcast use vstd::seq_lib::seq_to_set_is_finite;
    if es.len() == 0 {
        assert(mentioned(es) =~= Set::<Seq<char>>::empty());
    } else {
        let d = es.drop_last();
        let l = es.last();
        lemma_mentioned_finite(d);
        assert forall|m: Seq<char>| mentioned(es).contains(m) <==> #[trigger] mentioned(d).union(l.1.to_set().insert(l.0)).contains(m) by {
            if mentioned(es).contains(m) {
                let j = choose|j: int| #![trigger es[j]] 0 <= j < es.len() && (es[j].0 == m || es[j].1.contains(m));
                if j < es.len() - 1 {
                    assert(d[j] == es[j]);
                }
            }
            if mentioned(d).contains(m) {
                let j = choose|j: int| #![trigger d[j]] 0 <= j < d.len() && (d[j].0 == m || d[j].1.contains(m));
                assert(d[j] == es[j]);
            }
            if m == l.0 || l.1.contains(m) {
                assert(es[es.len() - 1] == l);
            }
        }
        assert(mentioned(es) =~= mentioned(d).union(l.1.to_set().insert(l.0)));
    }
}

/// The nodes mentioned by a map's entries form a finite universe closed under dependencies.
proof fn lemma_universe(g: &DepsMap)
    ensures
        universe_ok(g@, mentioned(g.entries_view())),
{
    let es = g.entries_view();
    let u = mentioned(es);
    lemma_mentioned_finite(es);
    assert forall|m: Seq<char>| #[trigger] g@.contains_key(m) implies u.contains(m) && (forall|i: int| 0 <= i < g@[m].len() ==> u.contains(#[trigger] g@[m][i])) by {
        lemma_lookup_some_entry(es, m);
        let j = choose|j: int| 0 <= j < es.len() && es[j] == (m, lookup(es, m)->0);
        assert(es[j].0 == m);
        assert forall|i: int| 0 <= i < g@[m].len() implies u.contains(#[trigger] g@[m][i]) by {
            assert(es[j].1[i] == g@[m][i]);
            assert(es[j].1.contains(g@[m][i]));
        }
    }
}

/// Heights are unique: two height assignments agree on every node they both cover.
pub proof fn lemma_heights_unique(g: Map<Seq<char>, Seq<Seq<char>>>, h1: Map<Seq<char>, nat>, h2: Map<Seq<char>, nat>, n: Seq<char>)
    requires
        valid_heights(g, h1),
        valid_heights(g, h2),
        h1.contains_key(n),
        h2.contains_key(n),
    ensures
        h1[n] == h2[n],
    decreases h1[n],
{
    assert(height_rule(g, h1, n));
    assert(height_rule(g, h2, n));
    let cs = children(g, n);
    if cs.len() > 0 {
        let a = choose|i: int| 0 <= i < cs.len() && h1[n] == h1[#[trigger] cs[i]] + 1;
        let b = choose|i: int| 0 <= i < cs.len() && h2[n] == h2[#[trigger] cs[i]] + 1;
        assert(h1.contains_key(cs[a]) && h2.contains_key(cs[a]) && h2[cs[a]] < h2[n]);
        assert(h1.contains_key(cs[b]) && h2.contains_key(cs[b]) && h1[cs[b]] < h1[n]);
        lemma_heights_unique(g, h1, h2, cs[a]);
        lemma_heights_unique(g, h1, h2, cs[b]);
    }
}

/// The keys of `g`, in its stored order.
pub open spec fn key_list(g: DepsMap) -> Seq<Seq<char>> {
    keys_of(g.entries_view())
}

/// The largest recorded height among `hv` (0 for none).
fn max_of(hv: &Vec<usize>) -> (r: usize)
    ensures
        forall|j: int| 0 <= j < hv.len() ==> hv@[j] <= r,
        hv.len() == 0 ==> r == 0,
        hv.len() > 0 ==> exists|j: int| 0 <= j < hv.len() && hv@[j] == r,
{
    let mut m: usize = 0;
    let mut i: usize = 0;
    while i < hv.len()
        invariant
            i <= hv.len(),
            forall|j: int| 0 <= j < i ==> hv@[j] <= m,
            i == 0 ==> m == 0,
            i > 0 ==> exists|j: int| 0 <= j < i && hv@[j] == m,
        decreases hv.len() - i,
    {
        if hv[i] > m || i == 0 {
            m = hv[i];
        }
        i = i + 1;
    }
    m
}

/// Import levels, leaves first: the nodes grouped by their height in the dependency graph
/// (a node's height is one more than the largest height of its dependencies, 0 without any).
/// Levels are in ascending height, each in ascending order of type. A dependency cycle is an
/// error naming the first node that the depth-first search over the sorted types finds on a
/// cycle (`dependency_search`).
pub fn compute_levels(internal_deps: &DepsMap) -> (r: Result<Vec<Vec<String>>, AppError>)
    ensures
        r is Ok <==> acyclic(internal_deps@),
        r is Ok <==> dependency_search(internal_deps@) is Ok,
        r matches Err(e) ==> exists|n: Seq<char>|
            dependency_search(internal_deps@) == Err::<Set<Seq<char>>, Seq<char>>(n)
                && (e matches AppError::Json(m) && m@ == cycle_message(n)),
        match r {
            Ok(levels) => exists|h: Map<Seq<char>, nat>|
                #![trigger valid_heights(internal_deps@, h)]
                valid_heights(internal_deps@, h) && internal_deps@.dom().subset_of(h.dom())
                    && levels_view(levels@) == levels_of(sort_seq(key_list(*internal_deps)), h),
            Err(e) => e matches AppError::Json(m) && exists|n: Seq<char>| on_cycle(internal_deps@, n) && m@ == cycle_message(n),
        },
{
    let ghost g = internal_deps@;
    let ghost u = mentioned(internal_deps.entries_view());
    proof {
        lemma_universe(internal_deps);
    }
    let keys = internal_deps.keys();
    let nodes = sort_strings(&keys);
    let ghost ks = views(nodes@);
    assert(ks == sort_seq(key_list(*internal_deps)));
    proof {
        lemma_sort_seq_distinct(views(keys@));
        let sk = sorted_keys(g);
        assert(strictly_sorted(sk) && sk.to_set() == g.dom());
        lemma_strictly_sorted_unique(ks, sk);
    }
    proof {
        broadcast use vstd::seq_lib::group_to_multiset_ensures;
        lemma_sort_seq_props(views(keys@));
        lemma_map_of_dom_finite(internal_deps.entries_view());
        assert forall|j: int| 0 <= j < ks.len() implies g.contains_key(#[trigger] ks[j]) by {
            assert(ks.to_multiset().count(ks[j]) > 0);
            assert(views(keys@).contains(ks[j]));
            assert(views(keys@).to_set().contains(ks[j]));
        }
        assert forall|k: Seq<char>| #[trigger] g.contains_key(k) implies ks.contains(k) by {
            assert(views(keys@).to_set().contains(k));
            assert(views(keys@).to_multiset().count(k) > 0);
        }
    }
    let mut hs: Vec<(String, usize)> = Vec::new();
    let mut p: Vec<String> = Vec::new();
    proof {
        assert(heights_view(hs@) =~= Seq::<(Seq<char>, nat)>::empty());
        assert(map_of(heights_view(hs@)) =~= Map::<Seq<char>, nat>::empty());
        assert(views(p@) =~= Seq::<Seq<char>>::empty());
        assert(map_of(heights_view(hs@)).dom() =~= Set::<Seq<char>>::empty());
    }
    let mut i: usize = 0;
    while i < nodes.len()
        invariant
            g == internal_deps@,
            u == mentioned(internal_deps.entries_view()),
            universe_ok(g, u),
            ks == views(nodes@),
            forall|j: int| 0 <= j < ks.len() ==> g.contains_key(#[trigger] ks[j]),
            i <= nodes.len(),
            heights_ok(g, hs@, u),
            p@.len() == 0,
            forall|j: int| 0 <= j < i ==> map_of(heights_view(hs@)).contains_key(#[trigger] ks[j]),
            ks == sorted_keys(g),
            dependency_search(internal_deps@) == dfs_keys(g, map_of(heights_view(hs@)).dom(), ks, i as int),
        decreases nodes.len() - i,
    {
        proof {
            assert(ks[i as int] == nodes@[i as int]@);
            assert(u.contains(ks[i as int]));
            assert(views(p@) =~= Seq::<Seq<char>>::empty());
        }
        let ghost h_before = map_of(heights_view(hs@));
        match height_of(&nodes[i], internal_deps, &mut hs, &mut p, Ghost(u)) {
            Ok(_) => {
                proof {
                    assert(dfs_keys(g, h_before.dom(), ks, i as int) == dfs_keys(g, map_of(heights_view(hs@)).dom(), ks, i + 1));
                }
            },
            Err(n) => {
                proof {
                    lemma_cycle_not_acyclic(g, n@);
                    assert(dfs_keys(g, h_before.dom(), ks, i as int) == Err::<Set<Seq<char>>, Seq<char>>(n@));
                }
                let m1 = concat("cycle detected in metaobject dependency graph at `", n.as_str());
                let m2 = concat(m1.as_str(), "`");
                proof {
                    assert(on_cycle(internal_deps@, n@));
                    assert(m2@ == cycle_message(n@));
                }
                return Err(AppError::Json(m2));
            },
        }
        proof {
            assert forall|j: int| 0 <= j <= i implies map_of(heights_view(hs@)).contains_key(#[trigger] ks[j]) by {
                if j < i {
                    assert(h_before.contains_key(ks[j]));
                }
            }
        }
        i = i + 1;
    }
    let ghost h = map_of(heights_view(hs@));
    assert(valid_heights(g, h));
    assert(dependency_search(internal_deps@) is Ok);
    // The height of every node, in the order of `nodes`.
    let mut hv: Vec<usize> = Vec::new();
    let mut i: usize = 0;
    while i < nodes.len()
        invariant
            ks == views(nodes@),
            g == internal_deps@,
            valid_heights(g, h),
            forall|key: Seq<char>| #[trigger] g.contains_key(key) ==> ks.contains(key),
            h == map_of(heights_view(hs@)),
            forall|j: int| 0 <= j < ks.len() ==> h.contains_key(#[trigger] ks[j]),
            i <= nodes.len(),
            hv@.len() == i,
            forall|j: int| 0 <= j < i ==> hv@[j] as nat == h[#[trigger] ks[j]],
            dependency_search(internal_deps@) is Ok,
        decreases nodes.len() - i,
    {
        assert(ks[i as int] == nodes@[i as int]@);
        let v = match find_height(&hs, &nodes[i]) {
            Some(v) => v,
            None => {
                proof {
                    assert(h.contains_key(ks[i as int]));
                }
                0
            },
        };
        hv.push(v);
        i = i + 1;
    }
    let top = max_of(&hv);
    proof {
        lemma_max_height_bounds(ks, h);
        if ks.len() > 0 {
            let a = choose|j: int| 0 <= j < ks.len() && h[ks[j]] == max_height(ks, h);
            let b = choose|j: int| 0 <= j < hv.len() && hv@[j] == top;
            assert(hv@[a] as nat == h[ks[a]]);
            assert(hv@[b] as nat == h[ks[b]]);
        }
        assert(top as nat == max_height(ks, h));
    }
    let mut levels: Vec<Vec<String>> = Vec::new();
    let mut k: usize = 0;
    proof {
        assert(levels_view(levels@) + levels_by_height(ks, h, 0, top as nat) =~= levels_by_height(ks, h, 0, top as nat));
    }
    while k <= top
        invariant
            ks == views(nodes@),
            ks == sort_seq(key_list(*internal_deps)),
            top as nat == max_height(ks, h),
            g == internal_deps@,
            valid_heights(g, h),
            forall|key: Seq<char>| #[trigger] g.contains_key(key) ==> ks.contains(key),
            forall|j: int| 0 <= j < ks.len() ==> h.contains_key(#[trigger] ks[j]),
            hv@.len() == ks.len(),
            forall|j: int| 0 <= j < ks.len() ==> hv@[j] as nat == h[#[trigger] ks[j]],
            forall|j: int| 0 <= j < hv.len() ==> hv@[j] <= top,
            k <= top,
            levels_view(levels@) + levels_by_height(ks, h, k as nat, top as nat) == levels_by_height(ks, h, 0, top as nat),
            dependency_search(internal_deps@) is Ok,
        decreases top + 1 - k,
    {
        let mut lvl: Vec<String> = Vec::new();
        let mut j: usize = 0;
        while j < nodes.len()
            invariant
                ks == views(nodes@),
                hv@.len() == ks.len(),
                forall|j: int| 0 <= j < ks.len() ==> hv@[j] as nat == h[#[trigger] ks[j]],
                j <= nodes.len(),
                views(lvl@) == nodes_at(ks.take(j as int), h, k as nat),
            decreases nodes.len() - j,
        {
            proof {
                lemma_take_push(ks, j as int);
                assert(ks.take(j + 1).drop_last() =~= ks.take(j as int));
                assert(ks[j as int] == nodes@[j as int]@);
            }
            if hv[j] == k {
                let ghost before = lvl@;
                lvl.push(nodes[j].clone());
                proof {
                    lemma_map_values_push(before, lvl@.last(), |x: String| x@);
                    assert(lvl@ == before.push(lvl@.last()));
                }
            }
            j = j + 1;
        }
        proof {
            assert(ks.take(ks.len() as int) =~= ks);
        }
        let ghost rest = levels_by_height(ks, h, (k + 1) as nat, top as nat);
        if lvl.len() > 0 {
            let ghost before = levels@;
            levels.push(lvl);
            proof {
                lemma_map_values_push(before, levels@.last(), |v: Vec<String>| views(v@));
                assert(levels_view(before) + levels_by_height(ks, h, k as nat, top as nat) =~= levels_view(levels@) + rest);
            }
        } else {
            proof {
                assert(levels_by_height(ks, h, k as nat, top as nat) == rest);
            }
        }
        if k == top {
            proof {
                assert(levels_by_height(ks, h, (k + 1) as nat, top as nat) =~= Seq::<Seq<Seq<char>>>::empty());
                assert(levels_view(levels@) =~= levels_by_height(ks, h, 0, top as nat));
                assert(valid_heights(g, h));
                assert forall|key: Seq<char>| #[trigger] g.contains_key(key) implies h.contains_key(key) by {
                    let j = choose|j: int| 0 <= j < ks.len() && ks[j] == key;
                }
                assert(g.dom().subset_of(h.dom()));
            }
            return Ok(levels);
        }
        k = k + 1;
    }
    proof {
        assert(false);
    }
    Ok(levels)
}

proof fn lemma_max_height_bounds(ks: Seq<Seq<char>>, h: Map<Seq<char>, nat>)
    ensures
        forall|j: int| 0 <= j < ks.len() ==> h[#[trigger] ks[j]] <= max_height(ks, h),
        ks.len() > 0 ==> exists|j: int| 0 <= j < ks.len() && h[ks[j]] == max_height(ks, h),
    decreases ks.len(),
{
    if ks.len() > 0 {
        let kd = ks.drop_last();
        lemma_max_height_bounds(kd, h);
        assert forall|j: int| 0 <= j < ks.len() implies h[#[trigger] ks[j]] <= max_height(ks, h) by {
            if j < ks.len() - 1 {
                assert(kd[j] == ks[j]);
            }
        }
        if kd.len() > 0 && h[ks.last()] <= max_height(kd, h) {
            let j = choose|j: int| 0 <= j < kd.len() && h[kd[j]] == max_height(kd, h);
            assert(kd[j] == ks[j]);
        } else {
            assert(h[ks[ks.len() - 1]] == max_height(ks, h));
        }
    }
}

// -------------------------------------------------------------------------------------------------
// Rendering the dependency forest
// -------------------------------------------------------------------------------------------------

/// One line of the tree: the prefix, a branch (`└── ` for the last sibling), the label.
pub open spec fn tree_line(prefix: Seq<char>, is_last: bool, label: Seq<char>) -> Seq<char> {
    prefix + (if is_last { "└── "@ } else { "├── "@ }) + label + "\n"@
}

/// The prefix of a node's children.
pub open spec fn child_prefix(prefix: Seq<char>, is_last: bool) -> Seq<char> {
    prefix + (if is_last { "    "@ } else { "│   "@ })
}

/// Visiting a node that was not visited leaves fewer unvisited nodes.
pub proof fn lemma_unvisited_shrinks(ks: Seq<Seq<char>>, vis: Set<Seq<char>>, node: Seq<char>)
    requires
        ks.to_set().contains(node),
        !vis.contains(node),
    ensures
        ks.to_set().difference(vis.insert(node)).len() < ks.to_set().difference(vis).len(),
{
    broadcast use vstd::seq_lib::seq_to_set_is_finite;
    broadcast use vstd::set::group_set_axioms;
    let d = ks.to_set().difference(vis);
    assert(ks.to_set().difference(vis.insert(node)) =~= d.remove(node));
}

/// The subtree of `node` under `prefix`: its line, then its dependencies in ascending order.
/// `vis` holds the nodes on the path from the root; meeting one of them again is marked as a
/// cycle. `ks` lists the nodes of `g` that have dependencies.
pub open spec fn render_node(g: Map<Seq<char>, Seq<Seq<char>>>, ks: Seq<Seq<char>>, prefix: Seq<char>, node: Seq<char>, is_last: bool, vis: Set<Seq<char>>) -> Seq<char>
    decreases ks.to_set().difference(vis).len(), 0int, 0int,
{
    if vis.contains(node) {
        tree_line(prefix, is_last, node + " (cycle)"@)
    } else if ks.to_set().contains(node) {
        proof {
            lemma_unvisited_shrinks(ks, vis, node);
        }
        tree_line(prefix, is_last, node) + render_children(g, ks, child_prefix(prefix, is_last), sort_seq(children(g, node)), 0, vis.insert(node))
    } else {
        tree_line(prefix, is_last, node)
    }
}

/// The subtrees of `cs[i..]`, siblings under `prefix`.
pub open spec fn render_children(g: Map<Seq<char>, Seq<Seq<char>>>, ks: Seq<Seq<char>>, prefix: Seq<char>, cs: Seq<Seq<char>>, i: int, vis: Set<Seq<char>>) -> Seq<char>
    decreases ks.to_set().difference(vis).len(), 1int, cs.len() - i,
{
    if 0 <= i < cs.len() {
        render_node(g, ks, prefix, cs[i], i + 1 == cs.len(), vis) + render_children(g, ks, prefix, cs, i + 1, vis)
    } else {
        Seq::empty()
    }
}

/// Some node of `g` depends on `t`.
pub open spec fn has_dependents(g: Map<Seq<char>, Seq<Seq<char>>>, t: Seq<char>) -> bool {
    exists|k: Seq<char>| #[trigger] g.contains_key(k) && g[k].contains(t)
}

/// The elements of `ks` that nothing in `g` depends on, in order.
pub open spec fn without_dependents(g: Map<Seq<char>, Seq<Seq<char>>>, ks: Seq<Seq<char>>) -> Seq<Seq<char>>
    decreases ks.len(),
{
    if ks.len() == 0 {
        ks
    } else if has_dependents(g, ks.last()) {
        without_dependents(g, ks.drop_last())
    } else {
        without_dependents(g, ks.drop_last()).push(ks.last())
    }
}

/// `- t` lines, one per element.
pub open spec fn bullet_lines(ts: Seq<Seq<char>>) -> Seq<char>
    decreases ts.len(),
{
    if ts.len() == 0 {
        Seq::empty()
    } else {
        bullet_lines(ts.drop_last()) + "- "@ + ts.last() + "\n"@
    }
}

/// A titled list, preceded by an empty line; nothing for an empty list.
pub open spec fn section(title: Seq<char>, ts: Seq<Seq<char>>) -> Seq<char> {
    if ts.len() == 0 {
        Seq::empty()
    } else {
        "\n"@ + title + bullet_lines(ts)
    }
}

pub open spec fn forest_title() -> Seq<char> {
    "🌳 Metaobject dependency graph\n"@
}

pub open spec fn external_title() -> Seq<char> {
    "🔗 External dependencies (already in Shopify)\n"@
}

pub open spec fn missing_title() -> Seq<char> {
    "⚠️ Missing external dependencies (not in JSON and not in Shopify)\n"@
}

/// The whole report: the title, one tree per root (a type nothing depends on, in ascending
/// order), then the external and missing sections.
pub open spec fn forest_text(g: Map<Seq<char>, Seq<Seq<char>>>, ks: Seq<Seq<char>>, external: Seq<Seq<char>>, missing: Seq<Seq<char>>) -> Seq<char> {
    forest_title() + render_children(g, ks, Seq::empty(), sort_seq(without_dependents(g, ks)), 0, Set::empty())
        + section(external_title(), external) + section(missing_title(), missing)
}

fn push_tree_line(out: &mut String, prefix: &str, is_last: bool, label: &str)
    ensures
        final(out)@ == old(out)@ + tree_line(prefix@, is_last, label@),
{
    out.append(prefix);
    if is_last {
        out.append("└── ");
    } else {
        out.append("├── ");
    }
    out.append(label);
    out.append("\n");
    assert(final(out)@ =~= old(out)@ + tree_line(prefix@, is_last, label@));
}

fn render_subtree(out: &mut String, g: &DepsMap, prefix: &str, node: &str, is_last: bool, stack: &mut Vec<String>)
    ensures
        final(out)@ == old(out)@ + render_node(g@, key_list(*g), prefix@, node@, is_last, views(old(stack)@).to_set()),
        final(stack)@ == old(stack)@,
    decreases key_list(*g).to_set().difference(views(old(stack)@).to_set()).len(),
{
    let ghost vis = views(stack@).to_set();
    let ghost ks = key_list(*g);
    proof {
        lemma_map_of_dom_finite(g.entries_view());
    }
    if contains_string(stack, node) {
        let label = concat(node, " (cycle)");
        push_tree_line(out, prefix, is_last, label.as_str());
        return;
    }
    push_tree_line(out, prefix, is_last, node);
    match g.get(node) {
        None => {
            assert(!ks.to_set().contains(node@));
        },
        Some(d) => {
            let deps = sort_strings(d);
            let ghost cs = views(deps@);
            let p = concat(prefix, if is_last { "    " } else { "│   " });
            assert(p@ == child_prefix(prefix@, is_last));
            let ghost before_children = out@;
            let ghost vis2 = vis.insert(node@);
            stack.push(node.to_string());
            let ghost st = stack@;
            proof {
                lemma_map_values_push(old(stack)@, stack@.last(), |x: String| x@);
                crate::maps::lemma_push_to_set(views(old(stack)@), node@);
                assert(views(stack@).to_set() == vis2);
                lemma_unvisited_shrinks(ks, vis, node@);
                assert(render_children(g@, ks, p@, cs, cs.len() as int, vis2) == Seq::<char>::empty());
            }
            let mut i: usize = 0;
            while i < deps.len()
                invariant
                    i <= deps.len(),
                    cs == views(deps@),
                    stack@ == st,
                    views(st).to_set() == vis2,
                    ks == key_list(*g),
                    ks.to_set().difference(vis2).len() < ks.to_set().difference(vis).len(),
                    vis == views(old(stack)@).to_set(),
                    out@ + render_children(g@, ks, p@, cs, i as int, vis2) == before_children + render_children(g@, ks, p@, cs, 0, vis2),
                decreases deps.len() - i,
            {
                let ghost mid = out@;
                assert(cs[i as int] == deps@[i as int]@);
                render_subtree(out, g, p.as_str(), deps[i].as_str(), i + 1 == deps.len(), stack);
                proof {
                    assert(out@ + render_children(g@, ks, p@, cs, i + 1, vis2) =~= mid + render_children(g@, ks, p@, cs, i as int, vis2));
                }
                i = i + 1;
            }
            stack.pop();
            proof {
                assert(stack@ =~= old(stack)@);
                assert(g@[node@] == views(d@));
                assert(children(g@, node@) == views(d@));
            }
        },
    }
}

/// Whether some node of `g` depends on `t`.
fn has_dependents_exec(g: &DepsMap, t: &str) -> (r: bool)
    ensures
        r == has_dependents(g@, t@),
{
    let es = g.entries();
    let ghost ev = g.entries_view();
    let mut j: usize = 0;
    while j < es.len()
        invariant
            j <= es.len(),
            dep_entry_views(es@) == ev,
            ev == g.entries_view(),
            keys_of(ev).no_duplicates(),
            forall|i: int| 0 <= i < j ==> !(#[trigger] ev[i]).1.contains(t@),
        decreases es.len() - j,
    {
        assert(ev[j as int] == (es@[j as int].0@, views(es@[j as int].1@)));
        if contains_string(&es[j].1, t) {
            proof {
                lemma_lookup_at(ev, j as int);
                assert(g@.contains_key(ev[j as int].0));
                assert(g@[ev[j as int].0].contains(t@));
            }
            return true;
        }
        j = j + 1;
    }
    proof {
        if has_dependents(g@, t@) {
            let k = choose|k: Seq<char>| #[trigger] g@.contains_key(k) && g@[k].contains(t@);
            lemma_lookup_some_entry(ev, k);
            let i = choose|i: int| 0 <= i < ev.len() && ev[i] == (k, lookup(ev, k)->0);
            assert(ev[i].1 == g@[k]);
        }
    }
    false
}

/// The dependency forest as text: a title line, then one tree per type that nothing depends
/// on (in ascending order) with the dependencies of each node below it (ascending; a node met
/// again on its own path is marked `(cycle)`), then, when not empty, the external types and
/// the missing external types as `- type` lists under their own titles.
pub fn render_dependency_forest_text(internal_deps: &DepsMap, external_types: &[String], missing_external_types: &[String]) -> (r: String)
    ensures
        r@ == forest_text(internal_deps@, key_list(*internal_deps), views(external_types@), views(missing_external_types@)),
{
    let ghost g = internal_deps@;
    let ghost ks = key_list(*internal_deps);
    let mut out = String::new();
    out.append("🌳 Metaobject dependency graph\n");
    let keys = internal_deps.keys();
    let mut free: Vec<String> = Vec::new();
    let mut i: usize = 0;
    while i < keys.len()
        invariant
            i <= keys.len(),
            g == internal_deps@,
            views(keys@) == ks,
            views(free@) == without_dependents(g, ks.take(i as int)),
        decreases keys.len() - i,
    {
        proof {
            lemma_take_push(ks, i as int);
            assert(ks.take(i + 1).drop_last() =~= ks.take(i as int));
            assert(ks[i as int] == keys@[i as int]@);
        }
        if !has_dependents_exec(internal_deps, keys[i].as_str()) {
            let ghost before = free@;
            free.push(keys[i].clone());
            proof {
                lemma_map_values_push(before, keys@[i as int], |x: String| x@);
            }
        }
        i = i + 1;
    }
    assert(ks.take(keys.len() as int) =~= ks);
    let roots = sort_strings(&free);
    let ghost rs = views(roots@);
    let ghost start = out@;
    let mut stack: Vec<String> = Vec::new();
    proof {
        assert(views(stack@).to_set() =~= Set::<Seq<char>>::empty());
        assert(render_children(g, ks, Seq::empty(), rs, rs.len() as int, Set::empty()) == Seq::<char>::empty());
    }
    let mut i: usize = 0;
    while i < roots.len()
        invariant
            i <= roots.len(),
            g == internal_deps@,
            ks == key_list(*internal_deps),
            rs == views(roots@),
            stack@.len() == 0,
            out@ + render_children(g, ks, Seq::empty(), rs, i as int, Set::empty()) == start + render_children(g, ks, Seq::empty(), rs, 0, Set::empty()),
        decreases roots.len() - i,
    {
        let ghost mid = out@;
        assert(rs[i as int] == roots@[i as int]@);
        assert(views(stack@).to_set() =~= Set::<Seq<char>>::empty());
        render_subtree(&mut out, internal_deps, "", roots[i].as_str(), i + 1 == roots.len(), &mut stack);
        proof {
            reveal_strlit("");
            assert(""@ =~= Seq::<char>::empty());
            assert(out@ + render_children(g, ks, Seq::empty(), rs, i + 1, Set::empty()) =~= mid + render_children(g, ks, Seq::empty(), rs, i as int, Set::empty()));
        }
        i = i + 1;
    }
    push_section(&mut out, "🔗 External dependencies (already in Shopify)\n", external_types);
    push_section(&mut out, "⚠️ Missing external dependencies (not in JSON and not in Shopify)\n", missing_external_types);
    assert(out@ =~= forest_text(g, ks, views(external_types@), views(missing_external_types@)));
    out
}

fn push_section(out: &mut String, title: &str, ts: &[String])
    ensures
        final(out)@ == old(out)@ + section(title@, views(ts@)),
{
    if ts.len() == 0 {
        assert(final(out)@ =~= old(out)@ + section(title@, views(ts@)));
        return;
    }
    out.append("\n");
    out.append(title);
    let ghost start = out@;
    let mut i: usize = 0;
    while i < ts.len()
        invariant
            i <= ts.len(),
            out@ == start + bullet_lines(views(ts@.take(i as int))),
        decreases ts.len() - i,
    {
        proof {
            let t = views(ts@.take(i + 1));
            assert(t.drop_last() =~= views(ts@.take(i as int)));
            assert(t.last() == ts@[i as int]@);
        }
        out.append("- ");
        out.append(ts[i].as_str());
        out.append("\n");
        proof {
            let t = views(ts@.take(i + 1));
            assert(out@ =~= start + bullet_lines(t));
        }
        i = i + 1;
    }
    assert(ts@.take(ts.len() as int) =~= ts@);
    assert(final(out)@ =~= old(out)@ + section(title@, views(ts@)));
}

/// The dependencies of `defs` on types outside `internal`, definition by definition.
pub open spec fn external_deps(defs: Seq<DefinitionConfigView>, internal: Set<Seq<char>>) -> Seq<Seq<char>>
    decreases defs.len(),
{
    if defs.len() == 0 {
        Seq::empty()
    } else {
        external_deps(defs.drop_last(), internal) + keep_out(metaobject_deps(defs.last()), internal)
    }
}

/// The elements of `s` that `set` does not hold, in order.
pub fn keep_out_set(s: &Vec<String>, set: &StringSet) -> (r: Vec<String>)
    ensures
        views(r@) == keep_out(views(s@), set@),
{
    let mut out: Vec<String> = Vec::new();
    let mut i: usize = 0;
    while i < s.len()
        invariant
            i <= s.len(),
            views(out@) == keep_out(views(s@.take(i as int)), set@),
        decreases s.len() - i,
    {
        let ghost t = views(s@.take(i + 1));
        proof {
            lemma_take_push(s@, i as int);
            lemma_map_values_push(s@.take(i as int), s@[i as int], |x: String| x@);
            assert(t.drop_last() =~= views(s@.take(i as int)));
        }
        if !set.contains(s[i].as_str()) {
            let ghost before = out@;
            out.push(s[i].clone());
            proof {
                lemma_map_values_push(before, s@[i as int], |x: String| x@);
            }
        }
        i = i + 1;
    }
    assert(s@.take(s.len() as int) =~= s@);
    out
}

/// Every type that `defs` depend on but do not define, sorted, without repeats.
pub fn collect_external_dependency_types(defs: &Vec<MetaobjectDefinitionConfig>, internal_types: &StringSet) -> (r: Vec<String>)
    ensures
        views(r@) == dedup_adjacent(sort_seq(external_deps(definition_configs_view(defs@), internal_types@))),
{
    let ghost dv = definition_configs_view(defs@);
    let mut out: Vec<String> = Vec::new();
    let mut i: usize = 0;
    while i < defs.len()
        invariant
            i <= defs.len(),
            dv == definition_configs_view(defs@),
            views(out@) == external_deps(dv.take(i as int), internal_types@),
        decreases defs.len() - i,
    {
        let all = extract_metaobject_deps(&defs[i]);
        let ext = keep_out_set(&all, internal_types);
        let ghost before = views(out@);
        let mut j: usize = 0;
        while j < ext.len()
            invariant
                j <= ext.len(),
                views(out@) == before + views(ext@.take(j as int)),
            decreases ext.len() - j,
        {
            let ghost b = out@;
            out.push(ext[j].clone());
            proof {
                lemma_map_values_push(b, ext@[j as int], |x: String| x@);
                lemma_take_push(ext@, j as int);
                lemma_map_values_push(ext@.take(j as int), ext@[j as int], |x: String| x@);
            }
            j = j + 1;
        }
        proof {
            assert(ext@.take(ext.len() as int) =~= ext@);
            lemma_take_push(dv, i as int);
            assert(dv.take(i + 1).drop_last() =~= dv.take(i as int));
            assert(dv[i as int] == defs@[i as int]@);
        }
        i = i + 1;
    }
    assert(dv.take(defs.len() as int) =~= dv);
    let sorted = sort_strings(&out);
    dedup_strings(&sorted)
}

/// A trimmed optional text, absent when it is absent or blank.
pub open spec fn normalized_text(o: Option<Seq<char>>) -> Option<Seq<char>> {
    match o {
        Some(s) => if trim(s).len() == 0 { None } else { Some(trim(s)) },
        None => None,
    }
}

fn normalize_text(d: Option<String>) -> (r: Option<String>)
    ensures
        opt_view(r) == normalized_text(opt_view(d)),
{
    match d {
        None => None,
        Some(s) => {
            let t = trim_str(s.as_str());
            if t.as_str().is_empty() {
                None
            } else {
                Some(t)
            }
        },
    }
}

/// The description, trimmed; absent when blank.
pub fn normalize_description(d: Option<String>) -> (r: Option<String>)
    ensures
        opt_view(r) == normalized_text(opt_view(d)),
{
    normalize_text(d)
}

/// The display-name key, trimmed; absent when blank.
pub fn normalize_display_name_key(k: Option<String>) -> (r: Option<String>)
    ensures
        opt_view(r) == normalized_text(opt_view(k)),
{
    normalize_text(k)
}

/// The validations, or none when absent.
pub fn normalize_validations(v: &Option<Vec<MetaobjectValidationRule>>) -> (r: Vec<MetaobjectValidationRule>)
    ensures
        rules_view(r@) == (match v {
            Some(l) => rules_view(l@),
            None => Seq::<RuleView>::empty(),
        }),
{
    match v {
        None => {
            let r: Vec<MetaobjectValidationRule> = Vec::new();
            assert(rules_view(r@) =~= Seq::<RuleView>::empty());
            r
        },
        Some(list) => copy_rules(list),
    }
}

// -------------------------------------------------------------------------------------------------
// Laws of the levels
// -------------------------------------------------------------------------------------------------

/// The heights `from..=to` that some element of `ks` has, ascending.
pub open spec fn level_heights(ks: Seq<Seq<char>>, h: Map<Seq<char>, nat>, from: nat, to: nat) -> Seq<nat>
    decreases to + 1 - from,
{
    if from > to {
        Seq::empty()
    } else {
        let rest = level_heights(ks, h, from + 1, to);
        if nodes_at(ks, h, from).len() == 0 {
            rest
        } else {
            seq![from] + rest
        }
    }
}

proof fn lemma_nodes_at(ks: Seq<Seq<char>>, h: Map<Seq<char>, nat>, k: nat, n: Seq<char>)
    ensures
        nodes_at(ks, h, k).contains(n) <==> (ks.contains(n) && h[n] == k),
    decreases ks.len(),
{
    if ks.len() > 0 {
        lemma_nodes_at(ks.drop_last(), h, k, n);
        let d = nodes_at(ks.drop_last(), h, k);
        if ks.contains(n) && h[n] == k {
            let i = choose|i: int| 0 <= i < ks.len() && ks[i] == n;
            if i < ks.len() - 1 {
                assert(ks.drop_last()[i] == n);
            }
        }
        if ks.drop_last().contains(n) {
            let i = choose|i: int| 0 <= i < ks.drop_last().len() && ks.drop_last()[i] == n;
            assert(ks[i] == n);
        }
        if h[ks.last()] == k {
            assert(d.push(ks.last())[d.len() as int] == ks.last());
            if d.contains(n) {
                let i = choose|i: int| 0 <= i < d.len() && d[i] == n;
                assert(d.push(ks.last())[i] == n);
            }
            if d.push(ks.last()).contains(n) && n != ks.last() {
                let i = choose|i: int| 0 <= i < d.len() + 1 && d.push(ks.last())[i] == n;
                assert(d[i] == n);
            }
        }
        if ks.contains(n) && n != ks.last() {
            let i = choose|i: int| 0 <= i < ks.len() && ks[i] == n;
            assert(ks.drop_last()[i] == n);
        }
        if n == ks.last() {
            assert(ks[ks.len() - 1] == n);
        }
    }
}

proof fn lemma_level_heights(ks: Seq<Seq<char>>, h: Map<Seq<char>, nat>, from: nat, to: nat)
    ensures
        levels_by_height(ks, h, from, to).len() == level_heights(ks, h, from, to).len(),
        forall|i: int| 0 <= i < level_heights(ks, h, from, to).len() ==> #[trigger] levels_by_height(ks, h, from, to)[i]
            == nodes_at(ks, h, level_heights(ks, h, from, to)[i]),
        forall|i: int| 0 <= i < level_heights(ks, h, from, to).len() ==> from <= #[trigger] level_heights(ks, h, from, to)[i] <= to,
        forall|i: int, j: int| 0 <= i < j < level_heights(ks, h, from, to).len() ==> #[trigger] level_heights(ks, h, from, to)[i]
            < #[trigger] level_heights(ks, h, from, to)[j],
        forall|k: nat| from <= k <= to && nodes_at(ks, h, k).len() > 0 ==> #[trigger] level_heights(ks, h, from, to).contains(k),
    decreases to + 1 - from,
{
    if from <= to {
        lemma_level_heights(ks, h, from + 1, to);
        let rest = level_heights(ks, h, from + 1, to);
        let lr = levels_by_height(ks, h, from + 1, to);
        if nodes_at(ks, h, from).len() > 0 {
            let hs = seq![from] + rest;
            let ls = seq![nodes_at(ks, h, from)] + lr;
            assert(level_heights(ks, h, from, to) == hs);
            assert(levels_by_height(ks, h, from, to) == ls);
            assert forall|i: int| 0 <= i < hs.len() implies #[trigger] ls[i] == nodes_at(ks, h, hs[i]) by {
                if i > 0 {
                    assert(ls[i] == lr[i - 1]);
                    assert(hs[i] == rest[i - 1]);
                }
            }
            assert forall|i: int| 0 <= i < hs.len() implies from <= #[trigger] hs[i] <= to by {
                if i > 0 {
                    assert(hs[i] == rest[i - 1]);
                }
            }
            assert forall|i: int, j: int| 0 <= i < j < hs.len() implies #[trigger] hs[i] < #[trigger] hs[j] by {
                assert(hs[j] == rest[j - 1]);
                if i > 0 {
                    assert(hs[i] == rest[i - 1]);
                }
            }
            assert forall|k: nat| from <= k <= to && nodes_at(ks, h, k).len() > 0 implies #[trigger] hs.contains(k) by {
                if k == from {
                    assert(hs[0] == from);
                } else {
                    assert(rest.contains(k));
                    let i = choose|i: int| 0 <= i < rest.len() && rest[i] == k;
                    assert(hs[i + 1] == k);
                }
            }
        }
    }
}

/// Where the keys `ks` sit in the levels of `h`: a key is in the level of its height, and
/// the levels come in ascending height.
proof fn lemma_level_of(ks: Seq<Seq<char>>, h: Map<Seq<char>, nat>, n: Seq<char>)
    requires
        ks.contains(n),
    ensures
        exists|i: int| 0 <= i < levels_of(ks, h).len() && #[trigger] levels_of(ks, h)[i].contains(n)
            && level_heights(ks, h, 0, max_height(ks, h))[i] == h[n],
{
    let top = max_height(ks, h);
    lemma_max_height_bounds(ks, h);
    let j = choose|j: int| 0 <= j < ks.len() && ks[j] == n;
    assert(h[ks[j]] <= top);
    lemma_nodes_at(ks, h, h[n], n);
    lemma_level_heights(ks, h, 0, top);
    let hs = level_heights(ks, h, 0, top);
    assert(nodes_at(ks, h, h[n]).len() > 0);
    assert(hs.contains(h[n]));
    let i = choose|i: int| 0 <= i < hs.len() && hs[i] == h[n];
    assert(levels_of(ks, h)[i] == nodes_at(ks, h, hs[i]));
}

/// Every key lies in exactly one level, the level of its height.
pub proof fn lemma_levels_partition(ks: Seq<Seq<char>>, h: Map<Seq<char>, nat>, n: Seq<char>, i: int, j: int)
    requires
        0 <= i < levels_of(ks, h).len(),
        0 <= j < levels_of(ks, h).len(),
        levels_of(ks, h)[i].contains(n),
        levels_of(ks, h)[j].contains(n),
    ensures
        i == j,
        ks.contains(n),
{
    let top = max_height(ks, h);
    lemma_level_heights(ks, h, 0, top);
    let hs = level_heights(ks, h, 0, top);
    lemma_nodes_at(ks, h, hs[i], n);
    lemma_nodes_at(ks, h, hs[j], n);
    if i < j {
        assert(hs[i] < hs[j]);
    } else if j < i {
        assert(hs[j] < hs[i]);
    }
}

/// Every key lies in some level.
pub proof fn lemma_levels_cover(ks: Seq<Seq<char>>, h: Map<Seq<char>, nat>, n: Seq<char>)
    requires
        ks.contains(n),
    ensures
        exists|i: int| 0 <= i < levels_of(ks, h).len() && #[trigger] levels_of(ks, h)[i].contains(n),
{
    lemma_level_of(ks, h, n);
}

/// Levels import dependencies first: a dependency of a node of level `i` that is itself a key
/// lies in an earlier level.
pub proof fn lemma_levels_respect_dependencies(
    g: Map<Seq<char>, Seq<Seq<char>>>,
    h: Map<Seq<char>, nat>,
    ks: Seq<Seq<char>>,
    i: int,
    n: Seq<char>,
    c: Seq<char>,
)
    requires
        valid_heights(g, h),
        forall|k: Seq<char>| ks.contains(k) ==> h.contains_key(k),
        0 <= i < levels_of(ks, h).len(),
        levels_of(ks, h)[i].contains(n),
        children(g, n).contains(c),
        ks.contains(c),
    ensures
        exists|j: int| 0 <= j < i && #[trigger] levels_of(ks, h)[j].contains(c),
{
    let top = max_height(ks, h);
    lemma_level_heights(ks, h, 0, top);
    let hs = level_heights(ks, h, 0, top);
    lemma_nodes_at(ks, h, hs[i], n);
    assert(h.contains_key(n));
    assert(height_rule(g, h, n));
    let cs = children(g, n);
    let q = choose|q: int| 0 <= q < cs.len() && cs[q] == c;
    assert(h[cs[q]] < h[n]);
    lemma_level_of(ks, h, c);
    let j = choose|j: int| 0 <= j < levels_of(ks, h).len() && #[trigger] levels_of(ks, h)[j].contains(c)
        && hs[j] == h[c];
    if j >= i {
        if j > i {
            assert(hs[i] < hs[j]);
        }
    }
}

/// Normalising a normalised text changes nothing.
pub proof fn lemma_normalized_text_idempotent(o: Option<Seq<char>>)
    ensures
        normalized_text(normalized_text(o)) == normalized_text(o),
{
    if let Some(s) = o {
        crate::text::lemma_trim_idempotent(s);
    }
}

/// The external types are listed in strictly ascending order, each once, and they are exactly
/// the dependencies on types outside the file.
pub proof fn lemma_external_types_sorted_unique(defs: Seq<DefinitionConfigView>, internal: Set<Seq<char>>)
    ensures
        crate::text::strictly_sorted(dedup_adjacent(sort_seq(external_deps(defs, internal)))),
        forall|x: Seq<char>| #[trigger] dedup_adjacent(sort_seq(external_deps(defs, internal))).contains(x)
            <==> external_deps(defs, internal).contains(x),
{
    broadcast use vstd::seq_lib::group_to_multiset_ensures;
    let e = external_deps(defs, internal);
    lemma_sort_seq_props(e);
    crate::sorting::lemma_dedup_sorted(sort_seq(e));
    assert forall|x: Seq<char>| #[trigger] sort_seq(e).contains(x) <==> e.contains(x) by {
        assert(sort_seq(e).to_multiset().count(x) == e.to_multiset().count(x));
    }
}

/// With one definition per type, the dependency map has exactly the file's types as keys, and
/// the entry of each type is its dependencies on types of the file, in their order: the other
/// dependencies are external.
pub proof fn lemma_internal_deps_by_type(ds: Seq<DefinitionConfigView>, k: int)
    requires
        ds.map_values(|d: DefinitionConfigView| d.typ).no_duplicates(),
        0 <= k < ds.len(),
    ensures
        map_of(internal_dep_entries(ds)).dom() == def_types(ds),
        map_of(internal_dep_entries(ds)).contains_key(ds[k].typ),
        map_of(internal_dep_entries(ds))[ds[k].typ] == keep_in(metaobject_deps(ds[k]), def_types(ds)),
        forall|i: int| 0 <= i < map_of(internal_dep_entries(ds))[ds[k].typ].len()
            ==> def_types(ds).contains(#[trigger] map_of(internal_dep_entries(ds))[ds[k].typ][i]),
{
    let es = internal_dep_entries(ds);
    assert(keys_of(es) =~= ds.map_values(|d: DefinitionConfigView| d.typ));
    crate::maps::lemma_lookup_at(es, k);
    crate::maps::lemma_map_of_dom_finite(es);
    assert(map_of(es).dom() =~= def_types(ds));
    lemma_keep_in_members(metaobject_deps(ds[k]), def_types(ds));
}

/// What `keep_in` keeps lies in the set.
proof fn lemma_keep_in_members(s: Seq<Seq<char>>, set: Set<Seq<char>>)
    ensures
        forall|i: int| 0 <= i < keep_in(s, set).len() ==> set.contains(#[trigger] keep_in(s, set)[i]),
    decreases s.len(),
{
    if s.len() > 0 {
        let d = keep_in(s.drop_last(), set);
        lemma_keep_in_members(s.drop_last(), set);
        assert forall|i: int| 0 <= i < keep_in(s, set).len() implies set.contains(#[trigger] keep_in(s, set)[i]) by {
            if i < d.len() {
                assert(keep_in(s, set)[i] == d[i]);
            }
        }
    }
}

/// A bullet list holds one line `- t` for each element `t` of the list, in order, and nothing
/// else.
pub proof fn lemma_bullet_lines_one_per_type(ts: Seq<Seq<char>>)
    ensures
        bullet_lines(ts) == ts.map_values(|t: Seq<char>| "- "@ + t + "\n"@).flatten(),
    decreases ts.len(),
{
    let lines = ts.map_values(|t: Seq<char>| "- "@ + t + "\n"@);
    lines.lemma_flatten_and_flatten_alt_are_equivalent();
    if ts.len() > 0 {
        let d = ts.drop_last();
        lemma_bullet_lines_one_per_type(d);
        let dl = d.map_values(|t: Seq<char>| "- "@ + t + "\n"@);
        assert(lines.drop_last() =~= dl);
        dl.lemma_flatten_and_flatten_alt_are_equivalent();
        assert(lines.last() == "- "@ + ts.last() + "\n"@);
        assert(bullet_lines(ts) =~= dl.flatten_alt() + lines.last());
    } else {
        assert(lines =~= Seq::<Seq<char>>::empty());
    }
}

/// A section of the dependency text lists every type it is given: after an empty line and its
/// title, one line `- t` per type, in order; an empty list gives no section at all.
pub proof fn lemma_section_lists_every_type(title: Seq<char>, ts: Seq<Seq<char>>)
    ensures
        ts.len() == 0 ==> section(title, ts) == Seq::<char>::empty(),
        ts.len() > 0 ==> section(title, ts) == "\n"@ + title + ts.map_values(|t: Seq<char>| "- "@ + t + "\n"@).flatten(),
{
    lemma_bullet_lines_one_per_type(ts);
}
} // verus!
