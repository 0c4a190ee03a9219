//! Weakly connected components: nodes joined by edges followed in either
//! direction.

use vstd::prelude::*;
use crate::graph::analysis::{
    count_true, lemma_closed_holds_within, lemma_count_true, lemma_count_true_le, lemma_reachable_step, reachable,
    within,
};
use crate::graph::models::EdgeKind;
use crate::graph::pet::{
    enters, other_than, graph_edges, graph_neighbors_undirected, graph_node_count, graph_nodes, in_sources_of, leaves,
    out_targets_of,
};
use petgraph::graph::DiGraph;

verus! {

/// The edges followed in both directions: the edges, then each reversed.
pub open spec fn usym(es: Seq<(usize, usize)>) -> Seq<(usize, usize)> {
    es + es.map_values(|e: (usize, usize)| (e.1, e.0))
}

/// Which of the first `n` nodes lie in the weak component of `v`.
pub open spec fn comp_flags(n: nat, es: Seq<(usize, usize)>, v: usize) -> Seq<bool> {
    Seq::new(n, |t: int| reachable(usym(es), set![v], t as usize))
}

/// The size of the weak component of `v` among `n` nodes.
pub open spec fn comp_size(n: nat, es: Seq<(usize, usize)>, v: usize) -> nat {
    count_true(comp_flags(n, es, v))
}

/// The largest weak component size among those of the first `k` nodes.
pub open spec fn max_comp(n: nat, es: Seq<(usize, usize)>, k: nat) -> nat
    decreases k,
{
    if k == 0 {
        0
    } else {
        let prev = max_comp(n, es, (k - 1) as nat);
        let c = comp_size(n, es, (k - 1) as usize);
        if c > prev {
            c
        } else {
            prev
        }
    }
}

/// The size of the largest weak component of a graph with `n` nodes.
pub open spec fn largest_component(n: nat, es: Seq<(usize, usize)>) -> nat {
    max_comp(n, es, n)
}

proof fn lemma_max_comp_ge(n: nat, es: Seq<(usize, usize)>, k: nat, w: nat)
    requires
        w < k,
    ensures
        max_comp(n, es, k) >= comp_size(n, es, w as usize),
    decreases k,
{
    if w < k - 1 {
        lemma_max_comp_ge(n, es, (k - 1) as nat, w);
    }
}

/// Every node reachable from a node reachable from `s` is reachable from `s`.
proof fn lemma_reach_sub(es: Seq<(usize, usize)>, s: Set<usize>, x: usize, t: usize)
    requires
        reachable(es, s, x),
        reachable(es, set![x], t),
    ensures
        reachable(es, s, t),
{
    let v = Set::new(|y: usize| reachable(es, s, y));
    assert forall|k: int| 0 <= k < es.len() && v.contains(#[trigger] es[k].0) implies v.contains(es[k].1) by {
        lemma_reachable_step(es, s, k);
    }
    assert(set![x].subset_of(v));
    let m = choose|m: nat| #[trigger] within(es, set![x], m).contains(t);
    lemma_closed_holds_within(es, set![x], v, m);
}

proof fn lemma_usym_reverse(es: Seq<(usize, usize)>, k: int)
    requires
        0 <= k < usym(es).len(),
    ensures
        exists|j: int| 0 <= j < usym(es).len() && usym(es)[j] == (usym(es)[k].1, usym(es)[k].0),
{
    let m = es.len() as int;
    if k < m {
        assert(usym(es)[m + k] == (es[k].1, es[k].0));
    } else {
        assert(usym(es)[k - m] == es[k - m]);
    }
}

/// Weak reachability is symmetric.
proof fn lemma_sym_back(es: Seq<(usize, usize)>, v: usize, u: usize)
    requires
        reachable(usym(es), set![v], u),
    ensures
        reachable(usym(es), set![u], v),
{
    let us = usym(es);
    let c = Set::new(|x: usize| reachable(us, set![x], v));
    assert(within(us, set![v], 0).contains(v));
    assert(c.contains(v));
    assert forall|k: int| 0 <= k < us.len() && c.contains(#[trigger] us[k].0) implies c.contains(us[k].1) by {
        let x = us[k].0;
        let y = us[k].1;
        lemma_usym_reverse(es, k);
        let j = choose|j: int| 0 <= j < us.len() && us[j] == (y, x);
        assert(within(us, set![y], 0).contains(y));
        lemma_reachable_step(us, set![y], j);
        lemma_reach_sub(us, set![y], x, v);
    }
    assert(set![v].subset_of(c));
    let m = choose|m: nat| #[trigger] within(us, set![v], m).contains(u);
    lemma_closed_holds_within(us, set![v], c, m);
}

/// Two nodes of one weak component have the same component.
proof fn lemma_same_comp(es: Seq<(usize, usize)>, w: usize, v: usize, t: usize)
    requires
        reachable(usym(es), set![w], v),
    ensures
        reachable(usym(es), set![v], t) <==> reachable(usym(es), set![w], t),
{
    if reachable(usym(es), set![v], t) {
        lemma_reach_sub(usym(es), set![w], v, t);
    }
    if reachable(usym(es), set![w], t) {
        lemma_sym_back(es, w, v);
        lemma_reach_sub(usym(es), set![v], w, t);
    }
}

proof fn lemma_count_or(a: Seq<bool>, b: Seq<bool>, c: Seq<bool>)
    requires
        a.len() == b.len() == c.len(),
        forall|t: int| 0 <= t < a.len() ==> (c[t] <==> (a[t] || b[t])),
        forall|t: int| 0 <= t < a.len() ==> !(a[t] && b[t]),
    ensures
        count_true(c) == count_true(a) + count_true(b),
    decreases a.len(),
{
    if a.len() > 0 {
        lemma_count_or(a.drop_last(), b.drop_last(), c.drop_last());
    }
}

proof fn lemma_out_target_edge(es: Seq<(usize, usize)>, cur: usize, y: usize)
    requires
        out_targets_of(es, cur).contains(y),
    ensures
        exists|k: int| 0 <= k < es.len() && es[k] == (cur, y),
{
    let f = es.filter(leaves(cur));
    let r = choose|r: int| 0 <= r < out_targets_of(es, cur).len() && out_targets_of(es, cur)[r] == y;
    assert(f.contains(f[r]));
    es.lemma_filter_contains_rev(leaves(cur), f[r]);
    es.filter_lemma(leaves(cur));
    let k = choose|k: int| 0 <= k < es.len() && es[k] == f[r];
    assert(leaves(cur)(f[r]));
}

proof fn lemma_in_source_edge(es: Seq<(usize, usize)>, cur: usize, y: usize)
    requires
        in_sources_of(es, cur).contains(y),
    ensures
        exists|k: int| 0 <= k < es.len() && es[k] == (y, cur),
{
    let f = es.filter(enters(cur));
    let r = choose|r: int| 0 <= r < in_sources_of(es, cur).len() && in_sources_of(es, cur)[r] == y;
    assert(f.contains(f[r]));
    es.lemma_filter_contains_rev(enters(cur), f[r]);
    es.filter_lemma(enters(cur));
    let k = choose|k: int| 0 <= k < es.len() && es[k] == f[r];
    assert(enters(cur)(f[r]));
}

/// The neighbours of `cur` as `Graph::neighbors_undirected` lists them.
pub open spec fn undirected_neighbors(es: Seq<(usize, usize)>, cur: usize) -> Seq<usize> {
    out_targets_of(es, cur) + in_sources_of(es, cur).filter(other_than(cur))
}

/// A listed neighbour is the far end of an edge from `cur`, followed in
/// either direction.
proof fn lemma_listed_edge(es: Seq<(usize, usize)>, cur: usize, ns: Seq<usize>, q: int)
    requires
        ns.to_multiset() == undirected_neighbors(es, cur).to_multiset(),
        0 <= q < ns.len(),
    ensures
        exists|k: int| 0 <= k < usym(es).len() && usym(es)[k] == (cur, ns[q]),
{
    broadcast use vstd::seq_lib::group_to_multiset_ensures;

    let y = ns[q];
    assert(ns.contains(y));
    assert(ns.to_multiset().count(y) > 0);
    let a = out_targets_of(es, cur);
    let b = in_sources_of(es, cur).filter(other_than(cur));
    assert((a + b).contains(y));
    let r = choose|r: int| 0 <= r < (a + b).len() && (a + b)[r] == y;
    let m = es.len() as int;
    if r < a.len() {
        assert(a[r] == y);
        lemma_out_target_edge(es, cur, y);
        let k = choose|k: int| 0 <= k < es.len() && es[k] == (cur, y);
        assert(usym(es)[k] == (cur, y));
    } else {
        assert(b[r - a.len()] == y);
        assert(b.contains(y));
        in_sources_of(es, cur).lemma_filter_contains_rev(other_than(cur), y);
        lemma_in_source_edge(es, cur, y);
        let k = choose|k: int| 0 <= k < es.len() && es[k] == (y, cur);
        assert(usym(es)[m + k] == (cur, y));
    }
}

/// The far end of an edge from `cur`, other than `cur`, is listed.
proof fn lemma_edge_listed(es: Seq<(usize, usize)>, cur: usize, ns: Seq<usize>, k: int)
    requires
        ns.to_multiset() == undirected_neighbors(es, cur).to_multiset(),
        0 <= k < usym(es).len(),
        usym(es)[k].0 == cur,
        usym(es)[k].1 != cur,
    ensures
        ns.contains(usym(es)[k].1),
{
    broadcast use vstd::seq_lib::group_to_multiset_ensures;

    let y = usym(es)[k].1;
    let m = es.len() as int;
    let a = out_targets_of(es, cur);
    let b = in_sources_of(es, cur).filter(other_than(cur));
    if k < m {
        assert(es[k] == (cur, y));
        es.lemma_filter_contains(leaves(cur), k);
        let f = es.filter(leaves(cur));
        let r = choose|r: int| 0 <= r < f.len() && f[r] == es[k];
        assert(a[r] == y);
        assert((a + b)[r] == y);
    } else {
        assert(es[k - m] == (y, cur));
        es.lemma_filter_contains(enters(cur), k - m);
        let f = es.filter(enters(cur));
        let r = choose|r: int| 0 <= r < f.len() && f[r] == es[k - m];
        let ins = in_sources_of(es, cur);
        assert(ins[r] == y);
        ins.filter_lemma(other_than(cur));
        assert(b.contains(y));
        let s = choose|s: int| 0 <= s < b.len() && b[s] == y;
        assert((a + b)[a.len() + s] == y);
    }
    assert((a + b).contains(y));
    assert((a + b).to_multiset().count(y) > 0);
}

/// Whether marks are closed under the edges: an edge from a marked node
/// leads to a marked node.
pub open spec fn closed_marks(us: Seq<(usize, usize)>, m: Seq<bool>) -> bool {
    forall|k: int|
        0 <= k < us.len() && us[k].0 < m.len() && #[trigger] m[us[k].0 as int] ==> us[k].1 < m.len() && m[us[k].1 as int]
}

/// Marks the weak component of the unmarked node `v`, given marks that are
/// closed under edges in both directions; returns how many nodes were
/// marked.
fn mark_component(g: &DiGraph<String, EdgeKind>, seen: &mut Vec<bool>, v: usize) -> (added: usize)
    requires
        old(seen)@.len() == graph_nodes(*g).len(),
        v < graph_nodes(*g).len(),
        !old(seen)@[v as int],
        closed_marks(usym(graph_edges(*g)), old(seen)@),
    ensures
        final(seen)@.len() == old(seen)@.len(),
        forall|t: int|
            0 <= t < final(seen)@.len() ==> (#[trigger] final(seen)@[t] <==> (old(seen)@[t] || reachable(
                usym(graph_edges(*g)),
                set![v],
                t as usize,
            ))),
        count_true(final(seen)@) == count_true(old(seen)@) + added,
        closed_marks(usym(graph_edges(*g)), final(seen)@),
{
    let n = graph_node_count(g);
    let ghost es = graph_edges(*g);
    let ghost us = usym(es);
    let ghost before = seen@;
    let ghost sv = set![v];
    let mut stack: Vec<usize> = Vec::new();
    stack.push(v);
    let mut added: usize = 0;
    proof {
        assert(within(us, sv, 0).contains(v));
        assert(stack@[0] == v);
    }
    while stack.len() > 0
        invariant
            n == graph_nodes(*g).len(),
            es == graph_edges(*g),
            us == usym(es),
            sv == set![v],
            v < n,
            seen@.len() == n,
            before.len() == n,
            forall|q: int| 0 <= q < stack@.len() ==> #[trigger] stack@[q] < n && reachable(us, sv, stack@[q]),
            forall|t: int| 0 <= t < n && #[trigger] seen@[t] ==> before[t] || reachable(us, sv, t as usize),
            forall|t: int| 0 <= t < n && #[trigger] before[t] ==> seen@[t],
            seen@[v as int] || stack@.contains(v),
            count_true(seen@) == count_true(before) + added,
            forall|k: int|
                0 <= k < us.len() && us[k].0 < n && #[trigger] seen@[us[k].0 as int] ==> (us[k].1 < n && seen@[us[k].1 as int])
                    || stack@.contains(us[k].1),
        decreases n - count_true(seen@), stack@.len(),
    {
        let ghost old_stack = stack@;
        let ghost old_seen = seen@;
        let cur = stack.pop().unwrap();
        proof {
            lemma_count_true_le(seen@);
            assert(old_stack == stack@.push(cur));
            assert forall|x: usize| old_stack.contains(x) && x != cur implies stack@.contains(x) by {
                let q = choose|q: int| 0 <= q < old_stack.len() && old_stack[q] == x;
                assert(q < stack@.len());
                assert(stack@[q] == x);
            }
            assert(cur == old_stack[old_stack.len() - 1]);
        }
        if !seen[cur] {
            proof {
                lemma_count_true(seen@, cur as int);
                lemma_count_true_le(seen@.update(cur as int, true));
            }
            seen.set(cur, true);
            added = added + 1;
            let ns = graph_neighbors_undirected(g, cur);
            let ghost mid_stack = stack@;
            let mut j: usize = 0;
            while j < ns.len()
                invariant
                    j <= ns.len(),
                    cur < n,
                    n == graph_nodes(*g).len(),
                    es == graph_edges(*g),
                    us == usym(es),
                    reachable(us, sv, cur),
                    ns@.to_multiset() == undirected_neighbors(es, cur).to_multiset(),
                    forall|q: int| 0 <= q < ns@.len() ==> #[trigger] ns@[q] < n,
                    forall|q: int| 0 <= q < stack@.len() ==> #[trigger] stack@[q] < n && reachable(us, sv, stack@[q]),
                    forall|q: int| 0 <= q < j ==> stack@.contains(#[trigger] ns@[q]),
                    forall|x: usize| mid_stack.contains(x) ==> stack@.contains(x),
                decreases ns.len() - j,
            {
                let t = ns[j];
                proof {
                    lemma_listed_edge(es, cur, ns@, j as int);
                    let k = choose|k: int| 0 <= k < us.len() && us[k] == (cur, ns@[j as int]);
                    lemma_reachable_step(us, sv, k);
                }
                let ghost b = stack@;
                stack.push(t);
                proof {
                    assert(stack@[b.len() as int] == t);
                    assert forall|x: usize| b.contains(x) implies stack@.contains(x) by {
                        let q = choose|q: int| 0 <= q < b.len() && b[q] == x;
                        assert(stack@[q] == x);
                    }
                }
                j = j + 1;
            }
            proof {
                assert forall|k: int| 0 <= k < us.len() && us[k].0 < n && #[trigger] seen@[us[k].0 as int] implies (us[k].1
                    < n && seen@[us[k].1 as int]) || stack@.contains(us[k].1) by {
                    if us[k].0 == cur {
                        if us[k].1 == cur {
                        } else {
                            lemma_edge_listed(es, cur, ns@, k);
                            let q = choose|q: int| 0 <= q < ns@.len() && ns@[q] == us[k].1;
                            assert(stack@.contains(ns@[q]));
                        }
                    } else {
                        assert(old_seen[us[k].0 as int]);
                        if !(us[k].1 < n && old_seen[us[k].1 as int]) {
                            if us[k].1 != cur {
                                assert(mid_stack.contains(us[k].1));
                            }
                        }
                    }
                }
                if v != cur && !old_seen[v as int] {
                    assert(mid_stack.contains(v));
                }
            }
        } else {
            proof {
                assert forall|k: int| 0 <= k < us.len() && us[k].0 < n && #[trigger] seen@[us[k].0 as int] implies (us[k].1
                    < n && seen@[us[k].1 as int]) || stack@.contains(us[k].1) by {
                    if !(us[k].1 < n && seen@[us[k].1 as int]) && us[k].1 != cur {
                        assert(old_stack.contains(us[k].1));
                    }
                }
            }
        }
    }
    proof {
        let vs = Set::new(|t: usize| t < n && seen@[t as int]);
        assert(sv.subset_of(vs));
        assert forall|k: int| 0 <= k < us.len() && vs.contains(#[trigger] us[k].0) implies vs.contains(us[k].1) by {
            assert(seen@[us[k].0 as int]);
        }
        assert forall|t: int| 0 <= t < seen@.len() implies (#[trigger] seen@[t] <==> (before[t] || reachable(
            us,
            sv,
            t as usize,
        ))) by {
            if reachable(us, sv, t as usize) {
                let m = choose|m: nat| #[trigger] within(us, sv, m).contains(t as usize);
                lemma_closed_holds_within(us, sv, vs, m);
                assert(vs.contains(t as usize));
            }
        }
    }
    added
}

/// The size of the largest weakly connected component of the graph (`0`
/// for an empty graph).
pub fn largest_weak_component(g: &DiGraph<String, EdgeKind>) -> (r: usize)
    ensures
        r == largest_component(graph_nodes(*g).len(), graph_edges(*g)),
{
    let n = graph_node_count(g);
    let ghost es = graph_edges(*g);
    let ghost us = usym(es);
    let mut seen: Vec<bool> = Vec::new();
    let mut i: usize = 0;
    while i < n
        invariant
            i <= n,
            seen@.len() == i,
            forall|t: int| 0 <= t < i ==> !seen@[t],
        decreases n - i,
    {
        seen.push(false);
        i = i + 1;
    }
    let mut largest: usize = 0;
    let mut v: usize = 0;
    while v < n
        invariant
            v <= n,
            n == graph_nodes(*g).len(),
            es == graph_edges(*g),
            us == usym(es),
            seen@.len() == n,
            largest == max_comp(n as nat, es, v as nat),
            forall|t: int|
                0 <= t < n ==> (#[trigger] seen@[t] <==> exists|w: usize| w < v && reachable(us, set![w], t as usize)),
            closed_marks(us, seen@),
        decreases n - v,
    {
        if seen[v] {
            proof {
                let w = choose|w: usize| w < v && reachable(us, set![w], v);
                assert forall|t: int| 0 <= t < n implies comp_flags(n as nat, es, v)[t] == comp_flags(n as nat, es, w)[t] by {
                    lemma_same_comp(es, w, v, t as usize);
                }
                assert(comp_flags(n as nat, es, v) =~= comp_flags(n as nat, es, w));
                lemma_max_comp_ge(n as nat, es, v as nat, w as nat);
                assert forall|t: int| 0 <= t < n implies (#[trigger] seen@[t] <==> exists|x: usize| x < v + 1 && reachable(
                    us,
                    set![x],
                    t as usize,
                )) by {
                    if reachable(us, set![v], t as usize) {
                        lemma_same_comp(es, w, v, t as usize);
                    }
                }
            }
        } else {
            let ghost before = seen@;
            let added = mark_component(g, &mut seen, v);
            proof {
                let cf = comp_flags(n as nat, es, v);
                assert forall|t: int| 0 <= t < n implies !(before[t] && cf[t]) by {
                    if before[t] && cf[t] {
                        let w = choose|w: usize| w < v && reachable(us, set![w], t as usize);
                        lemma_sym_back(es, v, t as usize);
                        lemma_reach_sub(us, set![w], t as usize, v);
                        assert(before[v as int]);
                    }
                }
                lemma_count_or(before, cf, seen@);
                assert forall|t: int| 0 <= t < n implies (#[trigger] seen@[t] <==> exists|x: usize| x < v + 1 && reachable(
                    us,
                    set![x],
                    t as usize,
                )) by {
                    if seen@[t] && !before[t] {
                        assert(reachable(us, set![v], t as usize));
                    }
                }
            }
            if added > largest {
                largest = added;
            }
        }
        v = v + 1;
    }
    largest
}

} // verus!
