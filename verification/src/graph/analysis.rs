//! Analyses of a dependency graph: cycles, degrees, central nodes,
//! reachability from entry points, weak components and depths.

use vstd::prelude::*;
use vstd::relations::sorted_by;
use crate::graph::models::{CentralNode, Cycle, EdgeKind, EdgeMetrics};
use crate::graph::pet::{graph_edges, graph_in_degree, graph_node_count, graph_node_name, graph_nodes, graph_out_degree, graph_out_targets, graph_scc, in_sources_of, out_targets_of, scc_ok};
use crate::order::{compare_str, lex_le, lemma_key_preorder, sort_strings, stable_sort, views_of};
use crate::text::{join_strings, join_with, push_str_chars, string_from_chars};
use petgraph::graph::DiGraph;

verus! {

/// Whether a strongly connected component is a cycle: it has several
/// nodes, or its single node has an edge to itself.
pub open spec fn is_cycle(c: Seq<usize>, edges: Seq<(usize, usize)>) -> bool {
    c.len() > 1 || (c.len() == 1 && edges.contains((c[0], c[0])))
}

/// The names of a component's nodes, in text order.
pub open spec fn member_names(c: Seq<usize>, names: Seq<Seq<char>>) -> Seq<Seq<char>> {
    c.map_values(|i: usize| names[i as int]).sort_by(|a: Seq<char>, b: Seq<char>| lex_le(a, b, false))
}

/// The identifier of a cycle: `cycle:` and its members joined with `|`.
pub open spec fn cycle_id(members: Seq<Seq<char>>) -> Seq<char> {
    "cycle:"@ + join_with(members, '|')
}

/// A cycle as (identifier, size, member files, member modules).
pub open spec fn cycle_view(c: Cycle) -> (Seq<char>, nat, Seq<Seq<char>>, Seq<Seq<char>>) {
    (c.id@, c.size as nat, views_of(c.files@), views_of(c.modules@))
}

/// The cycle of a component: its members listed as files or as modules.
pub open spec fn cycle_of(c: Seq<usize>, names: Seq<Seq<char>>, file_cycle: bool) -> (Seq<char>, nat, Seq<Seq<char>>, Seq<Seq<char>>) {
    let ms = member_names(c, names);
    if file_cycle {
        (cycle_id(ms), ms.len(), ms, Seq::empty())
    } else {
        (cycle_id(ms), ms.len(), Seq::empty(), ms)
    }
}

/// The cycles of a list of components, in component order.
pub open spec fn cycles_of(
    comps: Seq<Seq<usize>>,
    names: Seq<Seq<char>>,
    edges: Seq<(usize, usize)>,
    file_cycle: bool,
) -> Seq<(Seq<char>, nat, Seq<Seq<char>>, Seq<Seq<char>>)>
    decreases comps.len(),
{
    if comps.len() == 0 {
        Seq::empty()
    } else if is_cycle(comps.last(), edges) {
        cycles_of(comps.drop_last(), names, edges, file_cycle).push(cycle_of(comps.last(), names, file_cycle))
    } else {
        cycles_of(comps.drop_last(), names, edges, file_cycle)
    }
}

/// Whether `cs` are, in some order, the cycles of the strongly connected
/// components of the graph with these node names and edges.
pub open spec fn cycles_found(
    names: Seq<Seq<char>>,
    edges: Seq<(usize, usize)>,
    file_cycle: bool,
    cs: Seq<(Seq<char>, nat, Seq<Seq<char>>, Seq<Seq<char>>)>,
) -> bool {
    exists|comps: Seq<Seq<usize>>|
        #[trigger] scc_ok(names.len(), edges, comps) && cs.to_multiset() == cycles_of(comps, names, edges, file_cycle).to_multiset()
}

/// Whether cycles are in identifier order.
pub open spec fn cycles_sorted(cs: Seq<Cycle>) -> bool {
    sorted_by(cs, |a: Cycle, b: Cycle| lex_le(a.id@, b.id@, false))
}

/// Whether `g` has an edge from `i` to itself.
fn has_self_edge(g: &DiGraph<String, EdgeKind>, i: usize) -> (r: bool)
    requires
        i < graph_nodes(*g).len(),
    ensures
        r == graph_edges(*g).contains((i, i)),
{
    broadcast use vstd::seq_lib::group_to_multiset_ensures;

    let ts = graph_out_targets(g, i);
    let ghost es = graph_edges(*g);
    let ghost pred = crate::graph::pet::leaves(i);
    let ghost f = es.filter(pred);
    let ghost outs = out_targets_of(es, i);
    assert(outs == f.map_values(|e: (usize, usize)| e.1));
    let mut found = false;
    let mut k: usize = 0;
    while k < ts.len()
        invariant
            k <= ts.len(),
            found ==> ts@.contains(i),
            !found ==> forall|q: int| 0 <= q < k ==> ts@[q] != i,
        decreases ts.len() - k,
    {
        if ts[k] == i {
            found = true;
            assert(ts@[k as int] == i);
        }
        k = k + 1;
    }
    proof {
        if found {
            assert(ts@.to_multiset().count(i) > 0);
            assert(outs.to_multiset().count(i) > 0);
            assert(outs.contains(i));
            let q = choose|q: int| 0 <= q < outs.len() && outs[q] == i;
            assert(f[q].1 == i);
            assert(f.contains(f[q]));
            es.lemma_filter_contains_rev(pred, f[q]);
            assert(pred(f[q]));
            assert(f[q] == (i, i));
        } else {
            assert(!ts@.contains(i));
            assert(ts@.to_multiset().count(i) == 0);
            if es.contains((i, i)) {
                let q = choose|q: int| 0 <= q < es.len() && es[q] == (i, i);
                es.lemma_filter_contains(pred, q);
                assert(f.contains((i, i)));
                let r = choose|r: int| 0 <= r < f.len() && f[r] == (i, i);
                assert(outs[r] == i);
                assert(outs.contains(i));
                assert(outs.to_multiset().count(i) > 0);
            }
        }
    }
    found
}

/// Detects file-level cycles: cycles whose members are listed as files.
pub fn detect_file_cycles(g: &DiGraph<String, EdgeKind>) -> (r: Vec<Cycle>)
    ensures
        cycles_found(graph_nodes(*g), graph_edges(*g), true, r@.map_values(|c: Cycle| cycle_view(c))),
        cycles_sorted(r@),
{
    detect_cycles(g, true)
}

/// Detects module-level cycles: cycles whose members are listed as modules.
pub fn detect_module_cycles(g: &DiGraph<String, EdgeKind>) -> (r: Vec<Cycle>)
    ensures
        cycles_found(graph_nodes(*g), graph_edges(*g), false, r@.map_values(|c: Cycle| cycle_view(c))),
        cycles_sorted(r@),
{
    detect_cycles(g, false)
}

/// Detects cycles among the strongly connected components reported for
/// `g`: each component with several nodes, or with one node having an edge
/// to itself, is a cycle whose members are its node names in text order.
/// Cycles are sorted by identifier.
pub fn detect_cycles(g: &DiGraph<String, EdgeKind>, file_cycle: bool) -> (r: Vec<Cycle>)
    ensures
        cycles_found(graph_nodes(*g), graph_edges(*g), file_cycle, r@.map_values(|c: Cycle| cycle_view(c))),
        cycles_sorted(r@),
{
    let comps = graph_scc(g);
    let ghost cv = comps@.map_values(|c: Vec<usize>| c@);
    let ghost names = graph_nodes(*g);
    let ghost es = graph_edges(*g);
    let mut cycles: Vec<Cycle> = Vec::new();
    let mut k: usize = 0;
    assert(cv.take(0) =~= Seq::<Seq<usize>>::empty());
    assert(cycles@.map_values(|c: Cycle| cycle_view(c)) =~= Seq::<(Seq<char>, nat, Seq<Seq<char>>, Seq<Seq<char>>)>::empty());
    while k < comps.len()
        invariant
            k <= comps.len(),
            cv == comps@.map_values(|c: Vec<usize>| c@),
            names == graph_nodes(*g),
            es == graph_edges(*g),
            forall|c: int, i: int| 0 <= c < comps@.len() && 0 <= i < comps@[c]@.len() ==> #[trigger] comps@[c]@[i] < names.len(),
            cycles@.map_values(|c: Cycle| cycle_view(c)) == cycles_of(cv.take(k as int), names, es, file_cycle),
        decreases comps.len() - k,
    {
        let comp = &comps[k];
        proof {
            assert(cv.take(k + 1).drop_last() =~= cv.take(k as int));
            assert(cv.take(k + 1).last() == comp@);
        }
        let keep = if comp.len() > 1 {
            true
        } else if comp.len() == 1 {
            has_self_edge(g, comp[0])
        } else {
            false
        };
        if keep {
            let mut members: Vec<String> = Vec::new();
            let mut i: usize = 0;
            while i < comp.len()
                invariant
                    i <= comp.len(),
                    names == graph_nodes(*g),
                    forall|q: int| 0 <= q < comp@.len() ==> #[trigger] comp@[q] < names.len(),
                    views_of(members@) == comp@.take(i as int).map_values(|x: usize| names[x as int]),
                decreases comp.len() - i,
            {
                let name = graph_node_name(g, comp[i]);
                let ghost old_m = views_of(members@);
                members.push(name);
                assert(views_of(members@) =~= old_m.push(names[comp@[i as int] as int]));
                assert(comp@.take(i + 1) =~= comp@.take(i as int).push(comp@[i as int]));
                assert(views_of(members@) =~= comp@.take(i + 1).map_values(|x: usize| names[x as int]));
                i = i + 1;
            }
            assert(comp@.take(comp@.len() as int) =~= comp@);
            let ghost unsorted = members@;
            let sorted = sort_strings(members, false);
            proof {
                crate::repo::scan::lemma_map_multiset(unsorted, sorted@, |s: String| s@);
                assert(views_of(unsorted) =~= unsorted.map_values(|s: String| s@));
                assert(views_of(sorted@) =~= sorted@.map_values(|s: String| s@));
                crate::order::lemma_sorted_views(sorted@, comp@.map_values(|x: usize| names[x as int]), false);
            }
            let joined = join_strings(&sorted, '|');
            let mut idv: Vec<char> = Vec::new();
            push_str_chars(&mut idv, "cycle:");
            push_str_chars(&mut idv, joined.as_str());
            let id = string_from_chars(idv.as_slice());
            let size = sorted.len();
            let empty: Vec<String> = Vec::new();
            assert(views_of(empty@) =~= Seq::<Seq<char>>::empty());
            let cycle = if file_cycle {
                Cycle { id, size, files: sorted, modules: empty }
            } else {
                Cycle { id, size, files: empty, modules: sorted }
            };
            let ghost old_c = cycles@;
            cycles.push(cycle);
            proof {
                assert(cycle_view(cycle) == cycle_of(comp@, names, file_cycle));
                assert(cycles@.map_values(|c: Cycle| cycle_view(c)) =~= old_c.map_values(|c: Cycle| cycle_view(c)).push(cycle_view(cycle)));
            }
        }
        k = k + 1;
    }
    assert(cv.take(cv.len() as int) =~= cv);
    let ghost unsorted = cycles@;
    let before = |a: &Cycle, b: &Cycle| -> (o: bool)
        ensures
            o == lex_le(a.id@, b.id@, false),
        { compare_str(a.id.as_str(), b.id.as_str(), false) <= 0 };
    proof {
        lemma_key_preorder(|c: Cycle| c.id@, false);
        assert((|a: Cycle, b: Cycle| lex_le((|c: Cycle| c.id@)(a), (|c: Cycle| c.id@)(b), false)) =~= (|a: Cycle, b: Cycle| lex_le(a.id@, b.id@, false)));
    }
    let r = stable_sort(cycles, &before, Ghost(|a: Cycle, b: Cycle| lex_le(a.id@, b.id@, false)));
    proof {
        crate::repo::scan::lemma_map_multiset(unsorted, r@, |c: Cycle| cycle_view(c));
        assert(scc_ok(names.len(), es, cv));
    }
    r
}

/// `s` and every node one edge away from it.
pub open spec fn step(edges: Seq<(usize, usize)>, s: Set<usize>) -> Set<usize> {
    s.union(Set::new(|t: usize| exists|k: int| 0 <= k < edges.len() && s.contains(#[trigger] edges[k].0) && edges[k].1 == t))
}

/// The nodes at most `n` edges away from `starts`.
pub open spec fn within(edges: Seq<(usize, usize)>, starts: Set<usize>, n: nat) -> Set<usize>
    decreases n,
{
    if n == 0 {
        starts
    } else {
        step(edges, within(edges, starts, (n - 1) as nat))
    }
}

/// Whether `t` can be reached from `starts` along edges.
pub open spec fn reachable(edges: Seq<(usize, usize)>, starts: Set<usize>, t: usize) -> bool {
    exists|n: nat| #[trigger] within(edges, starts, n).contains(t)
}

/// A set that holds the start nodes and is closed under edges holds every
/// node reachable from them.
pub proof fn lemma_closed_holds_within(edges: Seq<(usize, usize)>, starts: Set<usize>, v: Set<usize>, n: nat)
    requires
        starts.subset_of(v),
        forall|k: int| 0 <= k < edges.len() && v.contains(#[trigger] edges[k].0) ==> v.contains(edges[k].1),
    ensures
        within(edges, starts, n).subset_of(v),
    decreases n,
{
    if n > 0 {
        lemma_closed_holds_within(edges, starts, v, (n - 1) as nat);
        let prev = within(edges, starts, (n - 1) as nat);
        assert forall|t: usize| within(edges, starts, n).contains(t) implies v.contains(t) by {
            if !prev.contains(t) {
                let k = choose|k: int| 0 <= k < edges.len() && prev.contains(#[trigger] edges[k].0) && edges[k].1 == t;
                assert(v.contains(edges[k].0));
            }
        }
    }
}

/// A node one edge away from a reachable node is reachable.
pub proof fn lemma_reachable_step(edges: Seq<(usize, usize)>, starts: Set<usize>, k: int)
    requires
        0 <= k < edges.len(),
        reachable(edges, starts, edges[k].0),
    ensures
        reachable(edges, starts, edges[k].1),
{
    let n = choose|n: nat| #[trigger] within(edges, starts, n).contains(edges[k].0);
    assert(within(edges, starts, n + 1).contains(edges[k].1));
}

/// The number of `true` entries.
pub open spec fn count_true(s: Seq<bool>) -> nat
    decreases s.len(),
{
    if s.len() == 0 {
        0
    } else {
        count_true(s.drop_last()) + if s.last() {
            1nat
        } else {
            0nat
        }
    }
}

pub proof fn lemma_count_true(s: Seq<bool>, i: int)
    requires
        0 <= i < s.len(),
        !s[i],
    ensures
        count_true(s.update(i, true)) == count_true(s) + 1,
        count_true(s) < s.len(),
    decreases s.len(),
{
    if i == s.len() - 1 {
        assert(s.update(i, true).drop_last() =~= s.drop_last());
        lemma_count_true_le(s.drop_last());
    } else {
        lemma_count_true(s.drop_last(), i);
        assert(s.update(i, true).drop_last() =~= s.drop_last().update(i, true));
    }
}

pub proof fn lemma_count_true_le(s: Seq<bool>)
    ensures
        count_true(s) <= s.len(),
    decreases s.len(),
{
    if s.len() > 0 {
        lemma_count_true_le(s.drop_last());
    }
}

/// A target listed by `graph_out_targets` is the end of an edge from `cur`.
pub proof fn lemma_target_edge(es: Seq<(usize, usize)>, cur: usize, ts: Seq<usize>, q: int)
    requires
        ts.to_multiset() == out_targets_of(es, cur).to_multiset(),
        0 <= q < ts.len(),
    ensures
        exists|k: int| 0 <= k < es.len() && es[k] == (cur, ts[q]),
{
    broadcast use vstd::seq_lib::group_to_multiset_ensures;

    let t = ts[q];
    assert(ts.contains(t));
    assert(ts.to_multiset().count(t) > 0);
    let outs = out_targets_of(es, cur);
    assert(outs.contains(t));
    let pred = crate::graph::pet::leaves(cur);
    let f = es.filter(pred);
    let r = choose|r: int| 0 <= r < outs.len() && outs[r] == t;
    assert(f.contains(f[r]));
    es.lemma_filter_contains_rev(pred, f[r]);
    let k = choose|k: int| 0 <= k < es.len() && es[k] == f[r];
    assert(es[k] == (cur, t));
}

/// Every end of an edge from `cur` is listed by `graph_out_targets`.
pub proof fn lemma_edge_target(es: Seq<(usize, usize)>, cur: usize, ts: Seq<usize>, k: int)
    requires
        ts.to_multiset() == out_targets_of(es, cur).to_multiset(),
        0 <= k < es.len(),
        es[k].0 == cur,
    ensures
        ts.contains(es[k].1),
{
    broadcast use vstd::seq_lib::group_to_multiset_ensures;

    let pred = crate::graph::pet::leaves(cur);
    es.lemma_filter_contains(pred, k);
    let f = es.filter(pred);
    let r = choose|r: int| 0 <= r < f.len() && f[r] == es[k];
    let outs = out_targets_of(es, cur);
    assert(outs[r] == es[k].1);
    assert(outs.contains(es[k].1));
    assert(outs.to_multiset().count(es[k].1) > 0);
}

/// The nodes reachable from `starts`: `r[t]` tells whether node `t` is.
pub fn reach_from(g: &DiGraph<String, EdgeKind>, starts: &Vec<usize>) -> (r: Vec<bool>)
    requires
        forall|i: int| 0 <= i < starts@.len() ==> #[trigger] starts@[i] < graph_nodes(*g).len(),
    ensures
        r@.len() == graph_nodes(*g).len(),
        forall|t: usize| t < r@.len() ==> (r@[t as int] <==> reachable(graph_edges(*g), starts@.to_set(), t)),
{
    let n = crate::graph::pet::graph_node_count(g);
    let ghost es = graph_edges(*g);
    let ghost ss = starts@.to_set();
    let mut seen: Vec<bool> = Vec::new();
    let mut i: usize = 0;
    while i < n
        invariant
            i <= n,
            seen@.len() == i,
            forall|t: int| 0 <= t < i ==> !seen@[t],
        decreases n - i,
    {
        seen.push(false);
        i = i + 1;
    }
    let mut stack: Vec<usize> = Vec::new();
    let mut si: usize = 0;
    while si < starts.len()
        invariant
            n == graph_nodes(*g).len(),
            es == graph_edges(*g),
            ss == starts@.to_set(),
            si <= starts.len(),
            seen@.len() == n,
            stack@.len() == 0,
            forall|q: int| 0 <= q < starts@.len() ==> #[trigger] starts@[q] < n,
            forall|t: int| 0 <= t < n && #[trigger] seen@[t] ==> reachable(es, ss, t as usize),
            forall|q: int| 0 <= q < si ==> #[trigger] seen@[starts@[q] as int],
            forall|k: int| 0 <= k < es.len() && es[k].0 < n && #[trigger] seen@[es[k].0 as int] ==> es[k].1 < n && seen@[es[k].1 as int],
        decreases starts.len() - si,
    {
        stack.push(starts[si]);
        proof {
            assert(ss.contains(starts@[si as int]));
            assert(within(es, ss, 0).contains(starts@[si as int]));
            assert(stack@[0] == starts@[si as int]);
        }
        while stack.len() > 0
            invariant
                n == graph_nodes(*g).len(),
                es == graph_edges(*g),
                ss == starts@.to_set(),
                si < starts.len(),
                seen@.len() == n,
                forall|q: int| 0 <= q < starts@.len() ==> #[trigger] starts@[q] < n,
                forall|q: int| 0 <= q < stack@.len() ==> #[trigger] stack@[q] < n && reachable(es, ss, stack@[q]),
                forall|t: int| 0 <= t < n && #[trigger] seen@[t] ==> reachable(es, ss, t as usize),
                forall|q: int| 0 <= q < si ==> #[trigger] seen@[starts@[q] as int],
                seen@[starts@[si as int] as int] || stack@.contains(starts@[si as int]),
                forall|k: int| 0 <= k < es.len() && es[k].0 < n && #[trigger] seen@[es[k].0 as int] ==> es[k].1 < n && (seen@[es[k].1 as int] || stack@.contains(es[k].1)),
            decreases n - count_true(seen@), stack@.len(),
        {
            let ghost old_stack = stack@;
            let ghost old_seen = seen@;
            let cur = stack.pop().unwrap();
            proof {
                lemma_count_true_le(seen@);
                assert(old_stack == stack@.push(cur));
                assert forall|x: usize| old_stack.contains(x) && x != cur implies stack@.contains(x) by {
                    let q = choose|q: int| 0 <= q < old_stack.len() && old_stack[q] == x;
                    assert(q < stack@.len());
                    assert(stack@[q] == x);
                }
                assert(cur == old_stack[old_stack.len() - 1]);
            }
            if !seen[cur] {
                proof {
                    lemma_count_true(seen@, cur as int);
                }
                seen.set(cur, true);
                let ts = graph_out_targets(g, cur);
                let ghost mid_stack = stack@;
                let mut j: usize = 0;
                while j < ts.len()
                    invariant
                        j <= ts.len(),
                        cur < n,
                        n == graph_nodes(*g).len(),
                        es == graph_edges(*g),
                        reachable(es, ss, cur),
                        ts@.to_multiset() == out_targets_of(es, cur).to_multiset(),
                        forall|q: int| 0 <= q < ts@.len() ==> #[trigger] ts@[q] < n,
                        forall|q: int| 0 <= q < stack@.len() ==> #[trigger] stack@[q] < n && reachable(es, ss, stack@[q]),
                        forall|q: int| 0 <= q < j ==> stack@.contains(#[trigger] ts@[q]),
                        forall|x: usize| mid_stack.contains(x) ==> stack@.contains(x),
                    decreases ts.len() - j,
                {
                    let t = ts[j];
                    proof {
                        lemma_target_edge(es, cur, ts@, j as int);
                        let k = choose|k: int| 0 <= k < es.len() && es[k] == (cur, ts@[j as int]);
                        lemma_reachable_step(es, ss, k);
                    }
                    let ghost before = stack@;
                    stack.push(t);
                    proof {
                        assert(stack@ == before.push(t));
                        assert(stack@[before.len() as int] == t);
                        assert forall|x: usize| before.contains(x) implies stack@.contains(x) by {
                            let q = choose|q: int| 0 <= q < before.len() && before[q] == x;
                            assert(stack@[q] == x);
                        }
                    }
                    j = j + 1;
                }
                proof {
                    assert forall|k: int| 0 <= k < es.len() && es[k].0 < n && #[trigger] seen@[es[k].0 as int] implies es[k].1 < n && (seen@[es[k].1 as int] || stack@.contains(es[k].1)) by {
                        if es[k].0 == cur {
                            lemma_edge_target(es, cur, ts@, k);
                            let q = choose|q: int| 0 <= q < ts@.len() && ts@[q] == es[k].1;
                            assert(stack@.contains(ts@[q]));
                        } else {
                            assert(old_seen[es[k].0 as int]);
                            if es[k].1 != cur && !old_seen[es[k].1 as int] {
                                assert(mid_stack.contains(es[k].1));
                            }
                        }
                    }
                    if starts@[si as int] != cur && !old_seen[starts@[si as int] as int] {
                        assert(mid_stack.contains(starts@[si as int]));
                    }
                }
            } else {
                proof {
                    assert forall|k: int| 0 <= k < es.len() && es[k].0 < n && #[trigger] seen@[es[k].0 as int] implies es[k].1 < n && (seen@[es[k].1 as int] || stack@.contains(es[k].1)) by {
                        if es[k].1 != cur && !seen@[es[k].1 as int] {
                            assert(old_stack.contains(es[k].1));
                        }
                    }
                }
            }
        }
        si = si + 1;
    }
    proof {
        let v = Set::new(|t: usize| t < n && seen@[t as int]);
        assert forall|t: usize| ss.contains(t) implies v.contains(t) by {
            let q = choose|q: int| 0 <= q < starts@.len() && starts@[q] == t;
            assert(seen@[starts@[q] as int]);
        }
        assert forall|k: int| 0 <= k < es.len() && v.contains(#[trigger] es[k].0) implies v.contains(es[k].1) by {
            assert(seen@[es[k].0 as int]);
        }
        assert forall|t: usize| t < seen@.len() implies (seen@[t as int] <==> reachable(es, ss, t)) by {
            if reachable(es, ss, t) {
                let m = choose|m: nat| #[trigger] within(es, ss, m).contains(t);
                lemma_closed_holds_within(es, ss, v, m);
                assert(v.contains(t));
            }
        }
    }
    seen
}

/// The nodes where a walk from the entry points starts: the last node
/// named by each entry point that names one.
pub open spec fn start_nodes(names: Seq<Seq<char>>, entries: Seq<Seq<char>>) -> Set<usize> {
    Set::new(|t: usize| exists|e: int| 0 <= e < entries.len() && names.contains(entries[e]) && t as int == crate::graph::files::last_pos(names, #[trigger] entries[e]))
}

/// The names of the nodes reachable from the entry points.
pub open spec fn reachable_names(names: Seq<Seq<char>>, edges: Seq<(usize, usize)>, entries: Seq<Seq<char>>) -> Set<Seq<char>> {
    Set::new(|p: Seq<char>| exists|t: usize| t < names.len() && reachable(edges, start_nodes(names, entries), t) && #[trigger] names[t as int] == p)
}

/// Determines the files reachable from the entry points (following edges
/// from each entry point's node) and the listed files that are not.
pub fn analyze_reachability(
    g: &DiGraph<String, EdgeKind>,
    ids: &Vec<String>,
    entrypoints: &Vec<String>,
    all_nodes: &Vec<String>,
) -> (r: crate::graph::models::Reachability)
    requires
        graph_nodes(*g) == views_of(ids@),
    ensures
        views_of(r.entrypoints@) == views_of(entrypoints@),
        crate::order::strictly_sorted(views_of(r.reachable_nodes@), false),
        views_of(r.reachable_nodes@).to_set() == reachable_names(graph_nodes(*g), graph_edges(*g), views_of(entrypoints@)),
        crate::order::strictly_sorted(views_of(r.unreachable_nodes@), false),
        views_of(r.unreachable_nodes@).to_set() == views_of(all_nodes@).to_set().difference(
            reachable_names(graph_nodes(*g), graph_edges(*g), views_of(entrypoints@)),
        ),
{
    let ghost names = graph_nodes(*g);
    let ghost ev = views_of(entrypoints@);
    let mut starts: Vec<usize> = Vec::new();
    let mut e: usize = 0;
    while e < entrypoints.len()
        invariant
            e <= entrypoints.len(),
            names == graph_nodes(*g),
            names == views_of(ids@),
            ev == views_of(entrypoints@),
            forall|q: int| 0 <= q < starts@.len() ==> #[trigger] starts@[q] < names.len(),
            starts@.to_set() == Set::new(|t: usize| exists|x: int| 0 <= x < e && names.contains(ev[x]) && t as int == crate::graph::files::last_pos(names, #[trigger] ev[x])),
        decreases entrypoints.len() - e,
    {
        let found = crate::graph::files::last_index_of_id(ids, entrypoints[e].as_str());
        proof {
            crate::graph::files::lemma_last_pos(names, ev[e as int]);
        }
        let ghost old_starts = starts@;
        match found {
            Some(k) => {
                starts.push(k);
                proof {
                    crate::graph::files::lemma_push_to_set(old_starts, k);
                    assert(starts@.to_set() =~= Set::new(|t: usize| exists|x: int| 0 <= x < e + 1 && names.contains(ev[x]) && t as int == crate::graph::files::last_pos(names, #[trigger] ev[x]))) by {
                        assert forall|t: usize| #![auto] starts@.to_set().contains(t) implies exists|x: int| 0 <= x < e + 1 && names.contains(ev[x]) && t as int == crate::graph::files::last_pos(names, #[trigger] ev[x]) by {
                            if t != k {
                                assert(old_starts.to_set().contains(t));
                            } else {
                                assert(names.contains(ev[e as int]));
                            }
                        }
                    }
                }
            },
            None => {
                proof {
                    assert(starts@.to_set() =~= Set::new(|t: usize| exists|x: int| 0 <= x < e + 1 && names.contains(ev[x]) && t as int == crate::graph::files::last_pos(names, #[trigger] ev[x]))) by {
                        assert forall|t: usize| #![auto] (exists|x: int| 0 <= x < e + 1 && names.contains(ev[x]) && t as int == crate::graph::files::last_pos(names, #[trigger] ev[x])) implies starts@.to_set().contains(t) by {
                            let x = choose|x: int| 0 <= x < e + 1 && names.contains(ev[x]) && t as int == crate::graph::files::last_pos(names, #[trigger] ev[x]);
                            if x == e {
                                assert(!names.contains(ev[e as int]));
                            }
                        }
                    }
                }
            },
        }
        e = e + 1;
    }
    assert(starts@.to_set() =~= start_nodes(names, ev));
    let seen = reach_from(g, &starts);
    let ghost rs = reachable_names(names, graph_edges(*g), ev);
    let mut reach: Vec<String> = Vec::new();
    let mut t: usize = 0;
    while t < seen.len()
        invariant
            t <= seen.len(),
            seen@.len() == names.len(),
            names == views_of(ids@),
            names == graph_nodes(*g),
            starts@.to_set() == start_nodes(names, ev),
            rs == reachable_names(names, graph_edges(*g), ev),
            forall|x: usize| x < seen@.len() ==> (seen@[x as int] <==> reachable(graph_edges(*g), starts@.to_set(), x)),
            crate::order::strictly_sorted(views_of(reach@), false),
            views_of(reach@).to_set() == Set::new(|p: Seq<char>| exists|x: usize| x < t && seen@[x as int] && #[trigger] names[x as int] == p),
        decreases seen.len() - t,
    {
        if seen[t] {
            let ghost old_reach = views_of(reach@);
            insert_sorted_string(&mut reach, ids[t].clone());
            proof {
                assert(views_of(reach@).to_set() =~= Set::new(|p: Seq<char>| exists|x: usize| x < t + 1 && seen@[x as int] && #[trigger] names[x as int] == p)) by {
                    assert(names[t as int] == ids@[t as int]@);
                }
            }
        } else {
            proof {
                assert(views_of(reach@).to_set() =~= Set::new(|p: Seq<char>| exists|x: usize| x < t + 1 && seen@[x as int] && #[trigger] names[x as int] == p));
            }
        }
        t = t + 1;
    }
    assert(views_of(reach@).to_set() =~= rs);
    let mut unreach: Vec<String> = Vec::new();
    let mut a: usize = 0;
    let ghost av = views_of(all_nodes@);
    assert(views_of(unreach@).to_set() =~= av.take(0).to_set().difference(rs));
    while a < all_nodes.len()
        invariant
            a <= all_nodes.len(),
            av == views_of(all_nodes@),
            views_of(reach@).to_set() == rs,
            crate::order::strictly_sorted(views_of(unreach@), false),
            views_of(unreach@).to_set() == av.take(a as int).to_set().difference(rs),
        decreases all_nodes.len() - a,
    {
        let name = chars_of_string(&all_nodes[a]);
        let inside = crate::repo::metadata_detector::list_contains(&reach, name.as_slice());
        proof {
            assert(av.take(a + 1) =~= av.take(a as int).push(av[a as int]));
            crate::graph::files::lemma_push_to_set(av.take(a as int), av[a as int]);
            assert(views_of(reach@).contains(av[a as int]) <==> rs.contains(av[a as int]));
        }
        if !inside {
            insert_sorted_string(&mut unreach, all_nodes[a].clone());
        }
        assert(views_of(unreach@).to_set() =~= av.take(a + 1).to_set().difference(rs));
        a = a + 1;
    }
    assert(av.take(av.len() as int) =~= av);
    let mut eps: Vec<String> = Vec::new();
    let mut q: usize = 0;
    while q < entrypoints.len()
        invariant
            q <= entrypoints.len(),
            eps@.len() == q,
            forall|x: int| 0 <= x < q ==> #[trigger] eps@[x]@ == entrypoints@[x]@,
        decreases entrypoints.len() - q,
    {
        eps.push(entrypoints[q].clone());
        q = q + 1;
    }
    assert(views_of(eps@) =~= views_of(entrypoints@));
    crate::graph::models::Reachability { entrypoints: eps, reachable_nodes: reach, unreachable_nodes: unreach }
}

/// The characters of a string.
fn chars_of_string(s: &String) -> (r: Vec<char>)
    ensures
        r@ == s@,
{
    crate::text::chars_of(s.as_str())
}

/// Adds a string to a strictly sorted list (text order) unless present.
fn insert_sorted_string(v: &mut Vec<String>, x: String)
    requires
        crate::order::strictly_sorted(views_of(old(v)@), false),
    ensures
        crate::order::strictly_sorted(views_of(final(v)@), false),
        views_of(final(v)@).to_set() == views_of(old(v)@).to_set().insert(x@),
{
    crate::order::insert_sorted(v, x, false)
}

/// Every entry point that names a node of the graph is reachable.
pub proof fn law_entry_points_reachable(names: Seq<Seq<char>>, edges: Seq<(usize, usize)>, entries: Seq<Seq<char>>, e: int)
    requires
        0 <= e < entries.len(),
        names.contains(entries[e]),
        names.len() <= usize::MAX,
    ensures
        reachable_names(names, edges, entries).contains(entries[e]),
{
    crate::graph::files::lemma_last_pos(names, entries[e]);
    let t = crate::graph::files::last_pos(names, entries[e]) as usize;
    assert(t as int == crate::graph::files::last_pos(names, entries[e]));
    assert(start_nodes(names, entries).contains(t));
    assert(names[t as int] == entries[e]);
    assert(within(edges, start_nodes(names, entries), 0).contains(t));
    assert(reachable(edges, start_nodes(names, entries), t));
}

/// Reachability is closed under edges: the target of an edge from a
/// reachable node is reachable.
pub proof fn law_reachable_closed(names: Seq<Seq<char>>, edges: Seq<(usize, usize)>, entries: Seq<Seq<char>>, k: int)
    requires
        0 <= k < edges.len(),
        reachable(edges, start_nodes(names, entries), edges[k].0),
    ensures
        reachable(edges, start_nodes(names, entries), edges[k].1),
{
    lemma_reachable_step(edges, start_nodes(names, entries), k);
}

/// Degree counts as (identifier, in-degree, out-degree, total).
pub open spec fn metric_view(m: EdgeMetrics) -> (Seq<char>, nat, nat, nat) {
    (m.id@, m.in_degree as nat, m.out_degree as nat, m.total_degree as nat)
}

/// The degree counts of node `i`.
pub open spec fn degrees_of(names: Seq<Seq<char>>, edges: Seq<(usize, usize)>, i: int) -> (Seq<char>, nat, nat, nat) {
    let d_in = in_sources_of(edges, i as usize).len();
    let d_out = out_targets_of(edges, i as usize).len();
    (names[i], d_in, d_out, d_in + d_out)
}

/// Calculates the degree counts of every node, sorted by identifier.
pub fn degree_metrics(g: &DiGraph<String, EdgeKind>) -> (r: Vec<EdgeMetrics>)
    requires
        2 * graph_edges(*g).len() <= usize::MAX,
    ensures
        r@.map_values(|m: EdgeMetrics| metric_view(m)).to_multiset() == Seq::new(
            graph_nodes(*g).len(),
            |i: int| degrees_of(graph_nodes(*g), graph_edges(*g), i),
        ).to_multiset(),
        sorted_by(r@, |a: EdgeMetrics, b: EdgeMetrics| lex_le(a.id@, b.id@, false)),
{
    let n = graph_node_count(g);
    let ghost names = graph_nodes(*g);
    let ghost es = graph_edges(*g);
    let ghost want = Seq::new(names.len(), |i: int| degrees_of(names, es, i));
    let mut out: Vec<EdgeMetrics> = Vec::new();
    let mut i: usize = 0;
    while i < n
        invariant
            i <= n,
            n == names.len(),
            names == graph_nodes(*g),
            es == graph_edges(*g),
            2 * es.len() <= usize::MAX,
            want == Seq::new(names.len(), |k: int| degrees_of(names, es, k)),
            out@.map_values(|m: EdgeMetrics| metric_view(m)) == want.take(i as int),
        decreases n - i,
    {
        let d_in = graph_in_degree(g, i);
        let d_out = graph_out_degree(g, i);
        proof {
            es.lemma_filter_len(crate::graph::pet::enters(i));
            es.lemma_filter_len(crate::graph::pet::leaves(i));
            assert(d_in <= es.len());
            assert(d_out <= es.len());
        }
        let m = EdgeMetrics { id: graph_node_name(g, i), in_degree: d_in, out_degree: d_out, total_degree: d_in + d_out };
        let ghost old_out = out@;
        out.push(m);
        assert(out@.map_values(|m: EdgeMetrics| metric_view(m)) =~= want.take(i + 1)) by {
            assert(out@.map_values(|m: EdgeMetrics| metric_view(m)) =~= old_out.map_values(|m: EdgeMetrics| metric_view(m)).push(metric_view(m)));
        }
        i = i + 1;
    }
    assert(want.take(want.len() as int) =~= want);
    let ghost unsorted = out@;
    let before = |a: &EdgeMetrics, b: &EdgeMetrics| -> (o: bool)
        ensures
            o == lex_le(a.id@, b.id@, false),
        { compare_str(a.id.as_str(), b.id.as_str(), false) <= 0 };
    proof {
        lemma_key_preorder(|m: EdgeMetrics| m.id@, false);
        assert((|a: EdgeMetrics, b: EdgeMetrics| lex_le((|m: EdgeMetrics| m.id@)(a), (|m: EdgeMetrics| m.id@)(b), false)) =~= (|a: EdgeMetrics, b: EdgeMetrics| lex_le(a.id@, b.id@, false)));
    }
    let r = stable_sort(out, &before, Ghost(|a: EdgeMetrics, b: EdgeMetrics| lex_le(a.id@, b.id@, false)));
    proof {
        crate::repo::scan::lemma_map_multiset(unsorted, r@, |m: EdgeMetrics| metric_view(m));
    }
    r
}

/// The rank order of central nodes: higher total degree first, then
/// higher in-degree, then identifier.
pub open spec fn central_le(a: CentralNode, b: CentralNode) -> bool {
    a.total_degree > b.total_degree || (a.total_degree == b.total_degree && (a.in_degree > b.in_degree
        || (a.in_degree == b.in_degree && lex_le(a.id@, b.id@, false))))
}

/// A central node as (identifier, in-degree, out-degree, total).
pub open spec fn central_view(c: CentralNode) -> (Seq<char>, nat, nat, nat) {
    (c.id@, c.in_degree as nat, c.out_degree as nat, c.total_degree as nat)
}

/// Whether central nodes are in rank order.
pub open spec fn central_sorted(s: Seq<CentralNode>) -> bool {
    sorted_by(s, |a: CentralNode, b: CentralNode| central_le(a, b))
}

proof fn lemma_central_preorder()
    ensures
        crate::order::total_preorder(|a: CentralNode, b: CentralNode| central_le(a, b)),
{
    let le = |a: CentralNode, b: CentralNode| central_le(a, b);
    assert forall|a: CentralNode, b: CentralNode| #[trigger] le(a, b) || #[trigger] le(b, a) by {
        crate::order::lemma_lex_lt_total(a.id@, b.id@, false);
    }
    assert forall|a: CentralNode, b: CentralNode, c: CentralNode| #[trigger] le(a, b) && #[trigger] le(b, c) implies le(a, c) by {
        if a.id@ != b.id@ && b.id@ != c.id@ && crate::order::lex_lt(a.id@, b.id@, false) && crate::order::lex_lt(b.id@, c.id@, false) {
            crate::order::lemma_lex_lt_trans(a.id@, b.id@, c.id@, false);
        }
    }
}

/// Whether `r` is the first `limit` nodes of `metrics` in rank order.
pub open spec fn central_pick(r: Seq<CentralNode>, metrics: Seq<EdgeMetrics>, limit: int) -> bool {
    exists|s: Seq<CentralNode>|
        #![trigger central_sorted(s)]
        central_sorted(s) && s.map_values(|c: CentralNode| central_view(c)).to_multiset() == metrics.map_values(
            |m: EdgeMetrics| metric_view(m),
        ).to_multiset() && r == s.take(if limit < s.len() { limit } else { s.len() as int })
}

/// The most central nodes come first: the ranking keeps `limit` nodes (all
/// of them when there are fewer), each taken from the metrics, in
/// non-increasing total degree (ties by higher in-degree, then by
/// identifier), and any node whose total degree is higher than that of a
/// kept node is kept too.
pub proof fn law_central_ranking(r: Seq<CentralNode>, metrics: Seq<EdgeMetrics>, limit: int)
    requires
        central_pick(r, metrics, limit),
        limit >= 0,
    ensures
        r.len() == (if limit < metrics.len() { limit } else { metrics.len() as int }),
        forall|i: int, j: int| 0 <= i < j < r.len() ==> #[trigger] r[i].total_degree >= #[trigger] r[j].total_degree,
        forall|i: int, j: int|
            0 <= i < j < r.len() && #[trigger] r[i].total_degree == #[trigger] r[j].total_degree ==> r[i].in_degree
                >= r[j].in_degree,
        forall|i: int, j: int|
            0 <= i < j < r.len() && #[trigger] r[i].total_degree == #[trigger] r[j].total_degree && r[i].in_degree
                == r[j].in_degree ==> lex_le(r[i].id@, r[j].id@, false),
        forall|i: int| 0 <= i < r.len() ==> metrics.map_values(|m: EdgeMetrics| metric_view(m)).contains(central_view(#[trigger] r[i])),
        forall|k: int, i: int|
            0 <= k < metrics.len() && 0 <= i < r.len() && #[trigger] metrics[k].total_degree > #[trigger] r[i].total_degree
                ==> exists|j: int| 0 <= j < r.len() && central_view(#[trigger] r[j]) == metric_view(metrics[k]),
{
    broadcast use vstd::seq_lib::group_to_multiset_ensures;

    let s = choose|s: Seq<CentralNode>|
        #![trigger central_sorted(s)]
        central_sorted(s) && s.map_values(|c: CentralNode| central_view(c)).to_multiset() == metrics.map_values(
            |m: EdgeMetrics| metric_view(m),
        ).to_multiset() && r == s.take(if limit < s.len() { limit } else { s.len() as int });
    let sv = s.map_values(|c: CentralNode| central_view(c));
    let mv = metrics.map_values(|m: EdgeMetrics| metric_view(m));
    assert(sv.len() == mv.len()) by {
        assert(sv.to_multiset().len() == mv.to_multiset().len());
    }
    let lim = if limit < s.len() { limit } else { s.len() as int };
    let le = |a: CentralNode, b: CentralNode| central_le(a, b);
    assert forall|i: int, j: int| 0 <= i < j < r.len() implies #[trigger] r[i].total_degree >= #[trigger] r[j].total_degree by {
        assert(le(s[i], s[j]));
    }
    assert forall|i: int, j: int| 0 <= i < j < r.len() implies #[trigger] r[i].total_degree == #[trigger] r[j].total_degree
        ==> r[i].in_degree >= r[j].in_degree && (r[i].in_degree == r[j].in_degree ==> lex_le(r[i].id@, r[j].id@, false)) by {
        assert(le(s[i], s[j]));
    }
    assert forall|i: int| 0 <= i < r.len() implies mv.contains(central_view(#[trigger] r[i])) by {
        assert(sv[i] == central_view(r[i]));
        assert(sv.to_multiset().count(sv[i]) > 0);
    }
    assert forall|k: int, i: int|
        0 <= k < metrics.len() && 0 <= i < r.len() && #[trigger] metrics[k].total_degree > #[trigger] r[i].total_degree
        implies exists|j: int| 0 <= j < r.len() && central_view(#[trigger] r[j]) == metric_view(metrics[k]) by {
        assert(mv[k] == metric_view(metrics[k]));
        assert(mv.to_multiset().count(mv[k]) > 0);
        assert(sv.contains(mv[k]));
        let p = choose|p: int| 0 <= p < sv.len() && sv[p] == mv[k];
        if p >= lim {
            assert(le(s[i], s[p]));
            assert(s[p].total_degree == metrics[k].total_degree);
            assert(false);
        }
        assert(central_view(r[p]) == metric_view(metrics[k]));
    }
}

/// Ranks the most central nodes: by total degree (highest first), then
/// in-degree, then identifier, keeping the first `limit`.
pub fn central_nodes(metrics: &Vec<EdgeMetrics>, limit: usize) -> (r: Vec<CentralNode>)
    ensures
        central_pick(r@, metrics@, limit as int),
{
    let mut nodes: Vec<CentralNode> = Vec::new();
    let mut i: usize = 0;
    while i < metrics.len()
        invariant
            i <= metrics.len(),
            nodes@.map_values(|c: CentralNode| central_view(c)) == metrics@.take(i as int).map_values(|m: EdgeMetrics| metric_view(m)),
        decreases metrics.len() - i,
    {
        let m = &metrics[i];
        let c = CentralNode { id: m.id.clone(), in_degree: m.in_degree, out_degree: m.out_degree, total_degree: m.total_degree };
        let ghost old_nodes = nodes@;
        nodes.push(c);
        proof {
            assert(nodes@.map_values(|c: CentralNode| central_view(c)) =~= old_nodes.map_values(|c: CentralNode| central_view(c)).push(central_view(c)));
            assert(metrics@.take(i + 1) =~= metrics@.take(i as int).push(metrics@[i as int]));
            assert(metrics@.take(i + 1).map_values(|m: EdgeMetrics| metric_view(m)) =~= metrics@.take(i as int).map_values(|m: EdgeMetrics| metric_view(m)).push(metric_view(metrics@[i as int])));
        }
        i = i + 1;
    }
    assert(metrics@.take(metrics@.len() as int) =~= metrics@);
    proof {
        lemma_central_preorder();
    }
    let before = |a: &CentralNode, b: &CentralNode| -> (o: bool)
        ensures
            o == central_le(*a, *b),
        {
            if a.total_degree != b.total_degree {
                a.total_degree > b.total_degree
            } else if a.in_degree != b.in_degree {
                a.in_degree > b.in_degree
            } else {
                compare_str(a.id.as_str(), b.id.as_str(), false) <= 0
            }
        };
    let ghost unsorted = nodes@;
    let mut sorted = stable_sort(nodes, &before, Ghost(|a: CentralNode, b: CentralNode| central_le(a, b)));
    let ghost s = sorted@;
    proof {
        crate::repo::scan::lemma_map_multiset(unsorted, sorted@, |c: CentralNode| central_view(c));
        assert(central_sorted(s));
    }
    sorted.truncate(limit);
    assert(sorted@ =~= s.take(if limit < s.len() { limit as int } else { s.len() as int }));
    sorted
}

} // verus!
