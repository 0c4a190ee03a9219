//! Dependency depths: how many edges from the entry points each node lies,
//! and the longest dependency chains.

use vstd::prelude::*;
use crate::graph::analysis::{count_true, lemma_count_true, lemma_count_true_le, lemma_edge_target, lemma_target_edge, reachable, step, within};
use crate::order::{compare_str, lex_lt, lemma_lex_lt_asym, lemma_lex_lt_total, lemma_lex_lt_trans};
use crate::graph::models::{DependencyChain, EdgeKind};
use crate::graph::files::{last_index_of_id, last_pos, lemma_last_pos};
use crate::order::{stable_sort, total_preorder, views_of};
use vstd::relations::sorted_by;
use crate::graph::pet::{graph_edges, graph_node_count, graph_nodes, graph_out_targets};
use petgraph::graph::DiGraph;

verus! {

/// Whether `t` is first met `d` edges away from `starts`.
pub open spec fn first_at(es: Seq<(usize, usize)>, starts: Set<usize>, t: usize, d: nat) -> bool {
    within(es, starts, d).contains(t) && (d == 0 || !within(es, starts, (d - 1) as nat).contains(t))
}

proof fn lemma_within_mono(es: Seq<(usize, usize)>, s: Set<usize>, a: nat, b: nat)
    requires
        a <= b,
    ensures
        within(es, s, a).subset_of(within(es, s, b)),
    decreases b - a,
{
    if a < b {
        lemma_within_mono(es, s, a, (b - 1) as nat);
    }
}

/// The number of assigned entries.
pub open spec fn count_some(s: Seq<Option<usize>>) -> nat
    decreases s.len(),
{
    if s.len() == 0 {
        0
    } else {
        count_some(s.drop_last()) + if s.last() is Some {
            1nat
        } else {
            0nat
        }
    }
}

proof fn lemma_count_some_set(s: Seq<Option<usize>>, i: int, d: usize)
    requires
        0 <= i < s.len(),
        s[i] is None,
    ensures
        count_some(s.update(i, Some(d))) == count_some(s) + 1,
        count_some(s) < s.len(),
    decreases s.len(),
{
    if i == s.len() - 1 {
        assert(s.update(i, Some(d)).drop_last() =~= s.drop_last());
        lemma_count_some_le(s.drop_last());
    } else {
        lemma_count_some_set(s.drop_last(), i, d);
        assert(s.update(i, Some(d)).drop_last() =~= s.drop_last().update(i, Some(d)));
    }
}

proof fn lemma_count_some_le(s: Seq<Option<usize>>)
    ensures
        count_some(s) <= s.len(),
    decreases s.len(),
{
    if s.len() > 0 {
        lemma_count_some_le(s.drop_last());
    }
}

proof fn lemma_count_some_pos(s: Seq<Option<usize>>, t: int)
    requires
        0 <= t < s.len(),
        s[t] is Some,
    ensures
        count_some(s) >= 1,
    decreases s.len(),
{
    if t < s.len() - 1 {
        lemma_count_some_pos(s.drop_last(), t);
    }
}

proof fn lemma_count_grows(a: Seq<Option<usize>>, b: Seq<Option<usize>>, t: int)
    requires
        a.len() == b.len(),
        forall|x: int| 0 <= x < a.len() && #[trigger] a[x] is Some ==> b[x] is Some,
        0 <= t < a.len(),
        a[t] is None,
        b[t] is Some,
    ensures
        count_some(b) > count_some(a),
    decreases a.len(),
{
    if t < a.len() - 1 {
        lemma_count_grows(a.drop_last(), b.drop_last(), t);
    } else {
        lemma_count_mono(a.drop_last(), b.drop_last());
    }
}

proof fn lemma_count_mono(a: Seq<Option<usize>>, b: Seq<Option<usize>>)
    requires
        a.len() == b.len(),
        forall|x: int| 0 <= x < a.len() && #[trigger] a[x] is Some ==> b[x] is Some,
    ensures
        count_some(b) >= count_some(a),
    decreases a.len(),
{
    if a.len() > 0 {
        lemma_count_mono(a.drop_last(), b.drop_last());
    }
}

/// The nodes met from start nodes of a graph stay nodes of the graph.
proof fn lemma_within_bound(es: Seq<(usize, usize)>, ss: Set<usize>, m: nat, n: nat)
    requires
        forall|t: usize| ss.contains(t) ==> t < n,
        forall|k: int| 0 <= k < es.len() ==> #[trigger] es[k].0 < n && es[k].1 < n,
    ensures
        forall|t: usize| within(es, ss, m).contains(t) ==> t < n,
    decreases m,
{
    if m > 0 {
        lemma_within_bound(es, ss, (m - 1) as nat, n);
        let w = within(es, ss, (m - 1) as nat);
        assert forall|t: usize| within(es, ss, m).contains(t) implies t < n by {
            if !w.contains(t) {
                let k = choose|k: int| 0 <= k < es.len() && w.contains(#[trigger] es[k].0) && es[k].1 == t;
                assert(es[k].1 < n);
            }
        }
    }
}

proof fn lemma_stable(es: Seq<(usize, usize)>, ss: Set<usize>, k: nat, m: nat)
    requires
        within(es, ss, k + 1) == within(es, ss, k),
        m >= k,
    ensures
        within(es, ss, m) == within(es, ss, k),
    decreases m - k,
{
    if m > k {
        lemma_stable(es, ss, k, (m - 1) as nat);
    }
}

/// When a round meets no new node, every reachable node has been met.
proof fn lemma_closed_final(es: Seq<(usize, usize)>, ss: Set<usize>, n: nat, k: nat, t: usize)
    requires
        forall|x: usize| ss.contains(x) ==> x < n,
        forall|e: int| 0 <= e < es.len() ==> #[trigger] es[e].0 < n && es[e].1 < n,
        forall|x: usize| x < n ==> (within(es, ss, k + 1).contains(x) <==> within(es, ss, k).contains(x)),
        reachable(es, ss, t),
    ensures
        within(es, ss, k).contains(t),
{
    lemma_within_bound(es, ss, k, n);
    lemma_within_bound(es, ss, k + 1, n);
    assert(within(es, ss, k + 1) =~= within(es, ss, k));
    let m = choose|m: nat| #[trigger] within(es, ss, m).contains(t);
    if m <= k {
        lemma_within_mono(es, ss, m, k);
    } else {
        lemma_stable(es, ss, k, m);
    }
}

proof fn lemma_empty_within(es: Seq<(usize, usize)>, m: nat)
    ensures
        within(es, Set::<usize>::empty(), m) == Set::<usize>::empty(),
    decreases m,
{
    if m > 0 {
        lemma_empty_within(es, (m - 1) as nat);
        assert(within(es, Set::<usize>::empty(), m) =~= Set::<usize>::empty());
    }
}

/// The depth of every node from the start nodes: `Some(d)` when the node
/// is first met `d - 1` edges away (a start node has depth `1`), `None`
/// when it cannot be reached. Nodes are met breadth first.
pub fn shortest_depths(g: &DiGraph<String, EdgeKind>, starts: &Vec<usize>) -> (r: Vec<Option<usize>>)
    requires
        forall|q: int| 0 <= q < starts@.len() ==> #[trigger] starts@[q] < graph_nodes(*g).len(),
    ensures
        r@.len() == graph_nodes(*g).len(),
        forall|t: int|
            0 <= t < r@.len() ==> match #[trigger] r@[t] {
                Some(d) => d >= 1 && first_at(graph_edges(*g), starts@.to_set(), t as usize, (d - 1) as nat),
                None => !reachable(graph_edges(*g), starts@.to_set(), t as usize),
            },
{
    let n = graph_node_count(g);
    let ghost es = graph_edges(*g);
    let ghost ss = starts@.to_set();
    let mut depth: Vec<Option<usize>> = Vec::new();
    let mut i: usize = 0;
    while i < n
        invariant
            i <= n,
            depth@.len() == i,
            forall|t: int| 0 <= t < i ==> depth@[t] is None,
        decreases n - i,
    {
        depth.push(None);
        i = i + 1;
    }
    let mut frontier: Vec<usize> = Vec::new();
    let mut si: usize = 0;
    while si < starts.len()
        invariant
            si <= starts.len(),
            n == graph_nodes(*g).len(),
            ss == starts@.to_set(),
            depth@.len() == n,
            forall|q: int| 0 <= q < starts@.len() ==> #[trigger] starts@[q] < n,
            forall|t: int| 0 <= t < n ==> (#[trigger] depth@[t] is Some <==> exists|q: int| 0 <= q < si && starts@[q] == t),
            forall|t: int| 0 <= t < n && #[trigger] depth@[t] is Some ==> depth@[t] == Some(1usize),
            forall|q: int| 0 <= q < frontier@.len() ==> #[trigger] frontier@[q] < n && depth@[frontier@[q] as int] is Some,
            forall|t: int| 0 <= t < n && #[trigger] depth@[t] is Some ==> frontier@.contains(t as usize),
        decreases starts.len() - si,
    {
        let s = starts[si];
        if depth[s].is_none() {
            depth.set(s, Some(1));
            let ghost b = frontier@;
            frontier.push(s);
            proof {
                assert(frontier@[b.len() as int] == s);
                assert forall|x: usize| b.contains(x) implies frontier@.contains(x) by {
                    let q = choose|q: int| 0 <= q < b.len() && b[q] == x;
                    assert(frontier@[q] == x);
                }
            }
        }
        si = si + 1;
    }
    proof {
        assert forall|t: int| 0 <= t < n implies (#[trigger] depth@[t] is Some <==> within(es, ss, 0).contains(t as usize)) by {
            if depth@[t] is Some {
                let q = choose|q: int| 0 <= q < starts@.len() && starts@[q] == t;
                assert(ss.contains(starts@[q]));
            }
            if ss.contains(t as usize) {
                let q = choose|q: int| 0 <= q < starts@.len() && starts@[q] == t as usize;
            }
        }
        assert forall|t: usize| t < n implies (frontier@.contains(t) <==> #[trigger] first_at(es, ss, t, 0)) by {
            if frontier@.contains(t) {
                let q = choose|q: int| 0 <= q < frontier@.len() && frontier@[q] == t;
            }
            if first_at(es, ss, t, 0) {
                assert(depth@[t as int] is Some);
            }
        }
        if frontier@.len() > 0 {
            lemma_count_some_pos(depth@, frontier@[0] as int);
        } else {
            assert(ss =~= Set::<usize>::empty()) by {
                assert forall|x: usize| !ss.contains(x) by {
                    if ss.contains(x) {
                        let q = choose|q: int| 0 <= q < starts@.len() && starts@[q] == x;
                        assert(depth@[x as int] is Some);
                    }
                }
            }
            assert forall|t: int| 0 <= t < n && #[trigger] depth@[t] is None implies !reachable(es, ss, t as usize) by {
                if reachable(es, ss, t as usize) {
                    let m = choose|m: nat| #[trigger] within(es, ss, m).contains(t as usize);
                    lemma_empty_within(es, m);
                }
            }
        }
    }
    let mut level: usize = 1;
    while frontier.len() > 0
        invariant
            n == graph_nodes(*g).len(),
            es == graph_edges(*g),
            ss == starts@.to_set(),
            forall|x: usize| ss.contains(x) ==> x < n,
            forall|e: int| 0 <= e < es.len() ==> #[trigger] es[e].0 < n && es[e].1 < n,
            depth@.len() == n,
            1 <= level,
            frontier@.len() > 0 ==> level <= count_some(depth@),
            frontier@.len() == 0 ==> forall|t: int| 0 <= t < n && #[trigger] depth@[t] is None ==> !reachable(es, ss, t as usize),
            forall|t: int|
                0 <= t < n ==> (#[trigger] depth@[t] is Some <==> within(es, ss, (level - 1) as nat).contains(t as usize)),
            forall|t: int|
                0 <= t < n && #[trigger] depth@[t] is Some ==> depth@[t]->0 >= 1 && first_at(
                    es,
                    ss,
                    t as usize,
                    (depth@[t]->0 - 1) as nat,
                ),
            forall|q: int| 0 <= q < frontier@.len() ==> #[trigger] frontier@[q] < n,
            forall|t: usize| t < n ==> (frontier@.contains(t) <==> #[trigger] first_at(es, ss, t, (level - 1) as nat)),
        ensures
            depth@.len() == n,
            forall|t: int|
                0 <= t < n && #[trigger] depth@[t] is Some ==> depth@[t]->0 >= 1 && first_at(
                    es,
                    ss,
                    t as usize,
                    (depth@[t]->0 - 1) as nat,
                ),
            forall|t: int| 0 <= t < n && #[trigger] depth@[t] is None ==> !reachable(es, ss, t as usize),
        decreases n - count_some(depth@), frontier@.len(),
    {
        let ghost k: nat = (level - 1) as nat;
        let ghost wk = within(es, ss, k);
        let ghost before = depth@;
        let mut next: Vec<usize> = Vec::new();
        let mut fi: usize = 0;
        while fi < frontier.len()
            invariant
                n == graph_nodes(*g).len(),
                es == graph_edges(*g),
                forall|e: int| 0 <= e < es.len() ==> #[trigger] es[e].0 < n && es[e].1 < n,
                k == level - 1,
                wk == within(es, ss, k),
                depth@.len() == n,
                before.len() == n,
                fi <= frontier.len(),
                1 <= level <= count_some(before),
                forall|q: int| 0 <= q < frontier@.len() ==> #[trigger] frontier@[q] < n,
                forall|t: usize| t < n ==> (frontier@.contains(t) <==> #[trigger] first_at(es, ss, t, k)),
                forall|t: int| 0 <= t < n ==> (#[trigger] before[t] is Some <==> wk.contains(t as usize)),
                forall|t: int| 0 <= t < n && #[trigger] before[t] is Some ==> depth@[t] == before[t],
                forall|t: int|
                    0 <= t < n && #[trigger] depth@[t] is Some && before[t] is None ==> depth@[t] == Some((level + 1) as usize)
                        && first_at(es, ss, t as usize, k + 1) && next@.contains(t as usize),
                forall|q: int| 0 <= q < next@.len() ==> #[trigger] next@[q] < n && depth@[next@[q] as int] is Some && before[next@[q] as int] is None,
                forall|q: int, e: int|
                    0 <= q < fi && 0 <= e < es.len() && es[e].0 == #[trigger] frontier@[q] ==> #[trigger] depth@[es[e].1 as int] is Some,
            decreases frontier.len() - fi,
        {
            let u = frontier[fi];
            proof {
                assert(frontier@.contains(u));
            }
            let ts = graph_out_targets(g, u);
            let mut j: usize = 0;
            while j < ts.len()
                invariant
                    n == graph_nodes(*g).len(),
                    es == graph_edges(*g),
                    k == level - 1,
                    wk == within(es, ss, k),
                    depth@.len() == n,
                    before.len() == n,
                    j <= ts.len(),
                    u < n,
                    first_at(es, ss, u, k),
                    1 <= level <= count_some(before),
                    ts@.to_multiset() == crate::graph::pet::out_targets_of(es, u).to_multiset(),
                    forall|q: int| 0 <= q < ts@.len() ==> #[trigger] ts@[q] < n,
                    forall|t: int| 0 <= t < n ==> (#[trigger] before[t] is Some <==> wk.contains(t as usize)),
                    forall|t: int| 0 <= t < n && #[trigger] before[t] is Some ==> depth@[t] == before[t],
                    forall|t: int|
                        0 <= t < n && #[trigger] depth@[t] is Some && before[t] is None ==> depth@[t] == Some((level + 1) as usize)
                            && first_at(es, ss, t as usize, k + 1) && next@.contains(t as usize),
                    forall|q: int| 0 <= q < next@.len() ==> #[trigger] next@[q] < n && depth@[next@[q] as int] is Some && before[next@[q] as int] is None,
                    forall|q: int| 0 <= q < j ==> #[trigger] depth@[ts@[q] as int] is Some,
                    fi < frontier@.len(),
                    u == frontier@[fi as int],
                    forall|e: int| 0 <= e < es.len() ==> #[trigger] es[e].0 < n && es[e].1 < n,
                    forall|q: int, e: int|
                        0 <= q < fi && 0 <= e < es.len() && es[e].0 == #[trigger] frontier@[q] ==> #[trigger] depth@[es[e].1 as int] is Some,
                decreases ts.len() - j,
            {
                let t = ts[j];
                if depth[t].is_none() {
                    proof {
                        lemma_target_edge(es, u, ts@, j as int);
                        let e = choose|e: int| 0 <= e < es.len() && es[e] == (u, ts@[j as int]);
                        assert(wk.contains(u));
                        assert(wk.contains(es[e].0));
                        assert(step(es, wk).contains(t));
                        assert(within(es, ss, k + 1) == step(es, wk));
                        assert(before[t as int] is None);
                        assert(!wk.contains(t));
                        lemma_count_some_le(depth@);
                        lemma_count_mono(before, depth@);
                        lemma_count_some_set(depth@, t as int, 1);
                    }
                    depth.set(t, Some(level + 1));
                    let ghost b = next@;
                    next.push(t);
                    proof {
                        assert(next@[b.len() as int] == t);
                        assert forall|x: usize| b.contains(x) implies next@.contains(x) by {
                            let q = choose|q: int| 0 <= q < b.len() && b[q] == x;
                            assert(next@[q] == x);
                        }
                    }
                }
                j = j + 1;
            }
            proof {
                assert forall|q: int, e: int|
                    0 <= q < fi + 1 && 0 <= e < es.len() && es[e].0 == #[trigger] frontier@[q] implies #[trigger] depth@[es[e].1 as int] is Some by {
                    if q == fi {
                        lemma_edge_target(es, u, ts@, e);
                        let r = choose|r: int| 0 <= r < ts@.len() && ts@[r] == es[e].1;
                        assert(depth@[ts@[r] as int] is Some);
                    }
                }
            }
            fi = fi + 1;
        }
        proof {
            let wk1 = within(es, ss, k + 1);
            lemma_within_mono(es, ss, k, k + 1);
            assert forall|t: int| 0 <= t < n implies (#[trigger] depth@[t] is Some <==> wk1.contains(t as usize)) by {
                if wk1.contains(t as usize) && !wk.contains(t as usize) {
                    let e = choose|e: int| 0 <= e < es.len() && wk.contains(#[trigger] es[e].0) && es[e].1 == t as usize;
                    let u = es[e].0;
                    assert(u < n);
                    assert(before[u as int] is Some);
                    let d = before[u as int]->0;
                    assert(first_at(es, ss, u, (d - 1) as nat));
                    if d - 1 < k {
                        assert(within(es, ss, d as nat) == step(es, within(es, ss, (d - 1) as nat)));
                        assert(within(es, ss, d as nat).contains(t as usize));
                        lemma_within_mono(es, ss, d as nat, k);
                    } else if d - 1 > k {
                        lemma_within_mono(es, ss, k, (d - 2) as nat);
                    }
                    assert(first_at(es, ss, u, k));
                    assert(frontier@.contains(u));
                    let q = choose|q: int| 0 <= q < frontier@.len() && frontier@[q] == u;
                    assert(depth@[es[e].1 as int] is Some);
                }
                if depth@[t] is Some && before[t] is None {
                    assert(first_at(es, ss, t as usize, k + 1));
                }
            }
        }
        if next.len() == 0 {
            proof {
                assert forall|t: int| 0 <= t < n implies #[trigger] depth@[t] == before[t] by {
                    if depth@[t] is Some && before[t] is None {
                        assert(next@.contains(t as usize));
                    }
                }
                assert(depth@ =~= before);
                assert forall|t: int| 0 <= t < n && #[trigger] depth@[t] is None implies !reachable(es, ss, t as usize) by {
                    assert forall|x: usize| x < n implies (within(es, ss, k + 1).contains(x) <==> within(es, ss, k).contains(x)) by {
                        assert(depth@[x as int] is Some <==> within(es, ss, k + 1).contains(x));
                    }
                    if reachable(es, ss, t as usize) {
                        lemma_closed_final(es, ss, n as nat, k, t as usize);
                    }
                }
            }
            break;
        }
        proof {
            let t0 = next@[0];
            assert(depth@[t0 as int] is Some && before[t0 as int] is None);
            lemma_count_grows(before, depth@, t0 as int);
            lemma_count_some_le(depth@);
            assert(level + 1 <= count_some(depth@));
            assert(count_some(depth@) <= n);
        }
        frontier = next;
        level = level + 1;
        proof {
            assert forall|t: usize| t < n implies (frontier@.contains(t) <==> #[trigger] first_at(es, ss, t, (level - 1) as nat)) by {
                if frontier@.contains(t) {
                    let q = choose|q: int| 0 <= q < frontier@.len() && frontier@[q] == t;
                }
                if first_at(es, ss, t, (level - 1) as nat) {
                    assert(within(es, ss, (level - 1) as nat).contains(t));
                    assert(depth@[t as int] is Some);
                    assert(!wk.contains(t));
                    assert(before[t as int] is None);
                }
            }
        }
    }
    depth
}

/// Text order on lists of names (the order of `Vec<String>`).
pub open spec fn names_lt(a: Seq<Seq<char>>, b: Seq<Seq<char>>) -> bool
    decreases a.len(),
{
    if a.len() == 0 {
        b.len() > 0
    } else if b.len() == 0 {
        false
    } else if lex_lt(a[0], b[0], false) {
        true
    } else if lex_lt(b[0], a[0], false) {
        false
    } else {
        names_lt(a.drop_first(), b.drop_first())
    }
}

proof fn lemma_names_lt_irrefl(a: Seq<Seq<char>>)
    ensures
        !names_lt(a, a),
    decreases a.len(),
{
    if a.len() > 0 {
        lemma_lex_lt_asym(a[0], a[0], false);
        lemma_names_lt_irrefl(a.drop_first());
    }
}

proof fn lemma_names_lt_trans(a: Seq<Seq<char>>, b: Seq<Seq<char>>, c: Seq<Seq<char>>)
    requires
        names_lt(a, b),
        names_lt(b, c),
    ensures
        names_lt(a, c),
    decreases a.len(),
{
    if a.len() > 0 && b.len() > 0 && c.len() > 0 {
        lemma_lex_lt_total(a[0], b[0], false);
        lemma_lex_lt_total(b[0], c[0], false);
        lemma_lex_lt_asym(a[0], b[0], false);
        lemma_lex_lt_asym(b[0], c[0], false);
        lemma_lex_lt_asym(a[0], c[0], false);
        if lex_lt(a[0], b[0], false) && lex_lt(b[0], c[0], false) {
            lemma_lex_lt_trans(a[0], b[0], c[0], false);
        } else if lex_lt(a[0], b[0], false) {
            lemma_lex_lt_asym(c[0], a[0], false);
        } else if lex_lt(b[0], c[0], false) {
        } else {
            lemma_names_lt_trans(a.drop_first(), b.drop_first(), c.drop_first());
        }
    }
}

proof fn lemma_names_lt_total(a: Seq<Seq<char>>, b: Seq<Seq<char>>)
    ensures
        a == b || names_lt(a, b) || names_lt(b, a),
    decreases a.len(),
{
    if a.len() > 0 && b.len() > 0 {
        lemma_lex_lt_total(a[0], b[0], false);
        if !lex_lt(a[0], b[0], false) && !lex_lt(b[0], a[0], false) {
            lemma_names_lt_total(a.drop_first(), b.drop_first());
            if a.drop_first() == b.drop_first() {
                assert(a =~= seq![a[0]] + a.drop_first());
                assert(b =~= seq![b[0]] + b.drop_first());
            }
        }
    } else if a.len() == 0 && b.len() == 0 {
        assert(a =~= b);
    }
}

/// Whether one chain of names is preferred to another: it is longer, or
/// as long and earlier in text order.
pub open spec fn chain_better(a: Seq<Seq<char>>, b: Seq<Seq<char>>) -> bool {
    a.len() > b.len() || (a.len() == b.len() && names_lt(a, b))
}

proof fn lemma_better_trans(a: Seq<Seq<char>>, b: Seq<Seq<char>>, c: Seq<Seq<char>>)
    requires
        chain_better(a, b),
        chain_better(b, c),
    ensures
        chain_better(a, c),
{
    if a.len() == b.len() && b.len() == c.len() {
        lemma_names_lt_trans(a, b, c);
    }
}

/// Neither is preferred: `b` is at least as good as `a`, transitively.
proof fn lemma_not_better_trans(a: Seq<Seq<char>>, b: Seq<Seq<char>>, c: Seq<Seq<char>>)
    requires
        !chain_better(a, b),
        !chain_better(b, c),
    ensures
        !chain_better(a, c),
{
    lemma_names_lt_total(a, b);
    lemma_names_lt_total(b, c);
    if chain_better(a, c) {
        if a != b && b != c {
            assert(chain_better(b, a));
            assert(chain_better(c, b));
            lemma_better_trans(c, b, a);
            lemma_names_lt_irrefl(a);
            if a.len() == c.len() {
                lemma_names_lt_trans(a, c, a);
            }
        }
    }
}

/// The names along a path of nodes.
pub open spec fn path_names(names: Seq<Seq<char>>, p: Seq<usize>) -> Seq<Seq<char>> {
    p.map_values(|i: usize| names[i as int])
}

/// Whether an edge leads from `a` to `b`.
pub open spec fn has_edge(es: Seq<(usize, usize)>, a: usize, b: usize) -> bool {
    es.contains((a, b))
}

/// Whether the nodes of a path are distinct.
#[verifier::opaque]
pub open spec fn distinct_nodes(p: Seq<usize>) -> bool {
    forall|i: int, j: int| 0 <= i < j < p.len() ==> p[i] != p[j]
}

/// Whether every step of a path follows an edge.
#[verifier::opaque]
pub open spec fn linked(es: Seq<(usize, usize)>, p: Seq<usize>) -> bool {
    forall|i: int| 0 <= i < p.len() - 1 ==> #[trigger] has_edge(es, p[i], p[i + 1])
}

/// Whether every node of a path is a node of the graph.
#[verifier::opaque]
pub open spec fn nodes_below(p: Seq<usize>, n: nat) -> bool {
    forall|i: int| 0 <= i < p.len() ==> #[trigger] p[i] < n
}

/// A path of distinct nodes of the graph from `start`, along edges.
pub open spec fn simple_path(es: Seq<(usize, usize)>, n: nat, start: usize, p: Seq<usize>) -> bool {
    &&& p.len() >= 1
    &&& p[0] == start
    &&& nodes_below(p, n)
    &&& distinct_nodes(p)
    &&& linked(es, p)
}

proof fn lemma_push_simple(es: Seq<(usize, usize)>, n: nat, start: usize, p0: Seq<usize>, t: usize)
    requires
        simple_path(es, n, start, p0),
        t < n,
        !p0.contains(t),
        has_edge(es, p0.last(), t),
    ensures
        simple_path(es, n, start, p0.push(t)),
{
    let np = p0.push(t);
    assert(np[0] == p0[0]);
    assert(distinct_nodes(np)) by {
        reveal(distinct_nodes);
        assert forall|i: int, k: int| 0 <= i < k < np.len() implies np[i] != np[k] by {
            assert(np[i] == p0[i]);
            if k == np.len() - 1 {
                if np[i] == t {
                    assert(p0.contains(t));
                }
            } else {
                assert(np[k] == p0[k]);
            }
        }
    }
    assert(linked(es, np)) by {
        reveal(linked);
        assert forall|i: int| 0 <= i < np.len() - 1 implies #[trigger] has_edge(es, np[i], np[i + 1]) by {
            if i == np.len() - 2 {
                assert(np[i] == p0.last());
            } else {
                assert(np[i] == p0[i]);
                assert(np[i + 1] == p0[i + 1]);
                assert(has_edge(es, p0[i], p0[i + 1]));
            }
        }
    }
    assert(nodes_below(np, n)) by {
        reveal(nodes_below);
        assert forall|i: int| 0 <= i < np.len() implies #[trigger] np[i] < n by {
            if i < p0.len() {
                assert(np[i] == p0[i]);
            }
        }
    }
}

proof fn lemma_simple_facts(es: Seq<(usize, usize)>, n: nat, start: usize, p: Seq<usize>)
    requires
        simple_path(es, n, start, p),
    ensures
        p.len() >= 1,
        p[0] == start,
        forall|i: int| 0 <= i < p.len() ==> #[trigger] p[i] < n,
        extends(seq![start], p),
{
    reveal(nodes_below);
    assert(p.subrange(0, 1) =~= seq![start]);
}

proof fn lemma_single_simple(es: Seq<(usize, usize)>, n: nat, start: usize)
    requires
        start < n,
    ensures
        simple_path(es, n, start, seq![start]),
{
    reveal(nodes_below);
    reveal(distinct_nodes);
    reveal(linked);
}

/// The marks of the nodes on a path, after one more node.
proof fn lemma_on_push(on0: Seq<bool>, p0: Seq<usize>, t: usize)
    requires
        forall|x: usize| x < on0.len() ==> (#[trigger] on0[x as int] <==> p0.contains(x)),
        t < on0.len(),
    ensures
        forall|x: usize| x < on0.len() ==> (#[trigger] on0.update(t as int, true)[x as int] <==> p0.push(t).contains(x)),
{
    let np = p0.push(t);
    assert forall|x: usize| x < on0.len() implies (#[trigger] on0.update(t as int, true)[x as int] <==> np.contains(x)) by {
        let xu = x;
        if x != t {
            assert(on0.update(t as int, true)[x as int] == on0[x as int]);
            if np.contains(xu) {
                let q = choose|q: int| 0 <= q < np.len() && np[q] == xu;
                if q == np.len() - 1 {
                    assert(np[q] == t);
                } else {
                    assert(p0[q] == xu);
                    assert(p0.contains(xu));
                }
            }
            if p0.contains(xu) {
                let q = choose|q: int| 0 <= q < p0.len() && p0[q] == xu;
                assert(np[q] == xu);
            }
        } else {
            assert(np[np.len() - 1] == t);
        }
    }
}

/// A longer simple path extending `p0` continues with a target of `p0`'s
/// last node that is not on `p0`.
proof fn lemma_next_node(es: Seq<(usize, usize)>, n: nat, start: usize, p0: Seq<usize>, p: Seq<usize>)
    requires
        simple_path(es, n, start, p0),
        simple_path(es, n, start, p),
        extends(p0, p),
        p.len() > p0.len(),
    ensures
        has_edge(es, p0.last(), p[p0.len() as int]),
        !p0.contains(p[p0.len() as int]),
        extends(p0.push(p[p0.len() as int]), p),
{
    let k = p0.len() as int;
    assert(p.subrange(0, k)[k - 1] == p0[k - 1]);
    assert(p[k - 1] == p0[k - 1]);
    assert(has_edge(es, p[k - 1], p[k])) by {
        reveal(linked);
        let i = k - 1;
        assert(has_edge(es, p[i], p[i + 1]));
        assert(i + 1 == k);
    }
    if p0.contains(p[k]) {
        let i = choose|i: int| 0 <= i < p0.len() && p0[i] == p[k];
        assert(p.subrange(0, k)[i] == p0[i]);
        assert(p[i] == p[k]);
        reveal(distinct_nodes);
    }
    assert(p.subrange(0, k + 1) =~= p0.push(p[k]));
}

proof fn lemma_extends_trans(a: Seq<usize>, b: Seq<usize>, c: Seq<usize>)
    requires
        extends(a, b),
        extends(b, c),
    ensures
        extends(a, c),
{
    assert(c.subrange(0, a.len() as int) =~= c.subrange(0, b.len() as int).subrange(0, a.len() as int));
}

/// Whether `p` starts with `prefix`.
pub open spec fn extends(prefix: Seq<usize>, p: Seq<usize>) -> bool {
    p.len() >= prefix.len() && p.subrange(0, prefix.len() as int) == prefix
}

/// The best chain among the candidates seen and the simple paths that
/// extend `path`.
#[verifier::rlimit(40)]
fn extend_chain(
    g: &DiGraph<String, EdgeKind>,
    names: &Vec<String>,
    path: &mut Vec<usize>,
    on: &mut Vec<bool>,
    best: &mut Vec<usize>,
    Ghost(start): Ghost<usize>,
    Ghost(fuel): Ghost<nat>,
)
    requires
        fuel == graph_nodes(*g).len() - count_true(old(on)@),
        names@.len() == graph_nodes(*g).len(),
        crate::order::views_of(names@) == graph_nodes(*g),
        simple_path(graph_edges(*g), graph_nodes(*g).len(), start, old(path)@),
        simple_path(graph_edges(*g), graph_nodes(*g).len(), start, old(best)@),
        old(on)@.len() == graph_nodes(*g).len(),
        forall|t: usize| t < old(on)@.len() ==> (#[trigger] old(on)@[t as int] <==> old(path)@.contains(t)),
    ensures
        final(path)@ == old(path)@,
        final(on)@ == old(on)@,
        simple_path(graph_edges(*g), graph_nodes(*g).len(), start, final(best)@),
        final(best)@ == old(best)@ || extends(old(path)@, final(best)@),
        !chain_better(path_names(graph_nodes(*g), old(best)@), path_names(graph_nodes(*g), final(best)@)),
        forall|p: Seq<usize>|
            simple_path(graph_edges(*g), graph_nodes(*g).len(), start, p) && #[trigger] extends(old(path)@, p) ==> !chain_better(
                path_names(graph_nodes(*g), p),
                path_names(graph_nodes(*g), final(best)@),
            ),
    decreases fuel,
{
    let n = graph_node_count(g);
    let ghost es = graph_edges(*g);
    let ghost nm = graph_nodes(*g);
    let ghost p0 = path@;
    let ghost on0 = on@;
    let ghost b0 = best@;
    proof {
        lemma_simple_facts(es, n as nat, start, p0);
        lemma_names_lt_irrefl(path_names(nm, b0));
    }
    let last = path[path.len() - 1];
    let ts = graph_out_targets(g, last);
    proof {
        lemma_count_true_le(on@);
    }
    let mut j: usize = 0;
    while j < ts.len()
        invariant
            n == nm.len(),
            es == graph_edges(*g),
            nm == graph_nodes(*g),
            names@.len() == n,
            crate::order::views_of(names@) == nm,
            path@ == p0,
            on@ == on0,
            fuel == nm.len() - count_true(on0),
            count_true(on0) <= nm.len(),
            simple_path(es, n as nat, start, p0),
            on0.len() == n,
            forall|t: usize| t < on0.len() ==> (#[trigger] on0[t as int] <==> p0.contains(t)),
            last == p0.last(),
            j <= ts.len(),
            ts@.to_multiset() == crate::graph::pet::out_targets_of(es, last).to_multiset(),
            forall|q: int| 0 <= q < ts@.len() ==> #[trigger] ts@[q] < n,
            simple_path(es, n as nat, start, best@),
            best@ == b0 || extends(p0, best@),
            !chain_better(path_names(nm, b0), path_names(nm, best@)),
            forall|p: Seq<usize>|
                simple_path(es, n as nat, start, p) && #[trigger] extends(p0, p) && p.len() > p0.len() && (exists|q: int|
                    0 <= q < j && ts@[q] == p[p0.len() as int]) ==> !chain_better(path_names(nm, p), path_names(nm, best@)),
        decreases ts.len() - j,
    {
        let t = ts[j];
        if !on[t] {
            let ghost bb = best@;
            proof {
                lemma_target_edge(es, last, ts@, j as int);
                let e = choose|e: int| 0 <= e < es.len() && es[e] == (last, ts@[j as int]);
                assert(has_edge(es, last, t));
                lemma_count_true(on@, t as int);
            }
            path.push(t);
            on.set(t, true);
            proof {
                lemma_simple_facts(es, n as nat, start, p0);
                assert(p0.contains(t) <==> on0[t as int]);
                lemma_push_simple(es, n as nat, start, p0, t);
                lemma_on_push(on0, p0, t);
                assert(path@ == p0.push(t));
                assert(on@ == on0.update(t as int, true));
                assert(nm.len() - count_true(on@) < nm.len() - count_true(on0));
            }
            let ghost fuel1 = (nm.len() - count_true(on@)) as nat;
            extend_chain(g, names, path, on, best, Ghost(start), Ghost(fuel1));
            let ghost np = path@;
            path.pop();
            on.set(t, false);
            proof {
                assert(path@ =~= p0);
                assert(on@ =~= on0);
                lemma_not_better_trans(path_names(nm, b0), path_names(nm, bb), path_names(nm, best@));
                if best@ != bb {
                    assert(extends(p0, np)) by {
                        assert(np.subrange(0, p0.len() as int) =~= p0);
                    }
                    lemma_extends_trans(p0, np, best@);
                }
                assert forall|p: Seq<usize>|
                    simple_path(es, n as nat, start, p) && #[trigger] extends(p0, p) && p.len() > p0.len() && (exists|q: int|
                        0 <= q < j + 1 && ts@[q] == p[p0.len() as int]) implies !chain_better(path_names(nm, p), path_names(nm, best@)) by {
                    let q = choose|q: int| 0 <= q < j + 1 && ts@[q] == p[p0.len() as int];
                    if q < j {
                        lemma_not_better_trans(path_names(nm, p), path_names(nm, bb), path_names(nm, best@));
                    } else {
                        lemma_next_node(es, n as nat, start, p0, p);
                        assert(np == p0.push(p[p0.len() as int]));
                    }
                }
            }
        } else {
            proof {
                assert forall|p: Seq<usize>|
                    simple_path(es, n as nat, start, p) && #[trigger] extends(p0, p) && p.len() > p0.len() && (exists|q: int|
                        0 <= q < j + 1 && ts@[q] == p[p0.len() as int]) implies !chain_better(path_names(nm, p), path_names(nm, best@)) by {
                    let q = choose|q: int| 0 <= q < j + 1 && ts@[q] == p[p0.len() as int];
                    if q == j {
                        lemma_next_node(es, n as nat, start, p0, p);
                        assert(on0[t as int]);
                    }
                }
            }
        }
        j = j + 1;
    }
    proof {
        assert forall|p: Seq<usize>|
            simple_path(es, n as nat, start, p) && #[trigger] extends(p0, p) && p.len() > p0.len() implies !chain_better(
            path_names(nm, p),
            path_names(nm, best@),
        ) by {
            let k = p0.len() as int;
            lemma_next_node(es, n as nat, start, p0, p);
            assert(es.contains((p0.last(), p[k])));
            let e = choose|e: int| 0 <= e < es.len() && es[e] == (p0.last(), p[k]);
            lemma_edge_target(es, last, ts@, e);
            let q = choose|q: int| 0 <= q < ts@.len() && ts@[q] == p[k];
        }
    }
    proof {
        lemma_simple_facts(es, n as nat, start, p0);
        lemma_simple_facts(es, n as nat, start, best@);
    }
    let better = names_better_exec(names, path, best);
    if better {
        let ghost bb = best@;
        let copy = copy_path(path);
        *best = copy;
        proof {
            assert(extends(p0, best@)) by {
                assert(best@.subrange(0, p0.len() as int) =~= p0);
            }
            assert forall|p: Seq<usize>|
                simple_path(es, n as nat, start, p) && #[trigger] extends(p0, p) implies !chain_better(
                path_names(nm, p),
                path_names(nm, best@),
            ) by {
                if p.len() > p0.len() {
                    if chain_better(path_names(nm, p), path_names(nm, best@)) {
                        lemma_better_trans(path_names(nm, p), path_names(nm, best@), path_names(nm, bb));
                    }
                } else {
                    assert(p =~= p0);
                    lemma_names_lt_irrefl(path_names(nm, p));
                }
            }
            if chain_better(path_names(nm, b0), path_names(nm, best@)) {
                lemma_better_trans(path_names(nm, b0), path_names(nm, best@), path_names(nm, bb));
            }
        }
    } else {
        proof {
            assert forall|p: Seq<usize>|
                simple_path(es, n as nat, start, p) && #[trigger] extends(p0, p) implies !chain_better(
                path_names(nm, p),
                path_names(nm, best@),
            ) by {
                if p.len() <= p0.len() {
                    assert(p =~= p0);
                }
            }
        }
    }
}

fn copy_path(p: &Vec<usize>) -> (r: Vec<usize>)
    ensures
        r@ == p@,
{
    let mut r: Vec<usize> = Vec::new();
    let mut i: usize = 0;
    while i < p.len()
        invariant
            i <= p.len(),
            r@ == p@.take(i as int),
        decreases p.len() - i,
    {
        r.push(p[i]);
        i = i + 1;
        assert(r@ =~= p@.take(i as int));
    }
    assert(p@.take(p@.len() as int) =~= p@);
    r
}

/// Whether the chain `a` is preferred to the chain `b`, by their names.
fn names_better_exec(names: &Vec<String>, a: &Vec<usize>, b: &Vec<usize>) -> (r: bool)
    requires
        forall|i: int| 0 <= i < a@.len() ==> #[trigger] a@[i] < names@.len(),
        forall|i: int| 0 <= i < b@.len() ==> #[trigger] b@[i] < names@.len(),
    ensures
        r == chain_better(path_names(crate::order::views_of(names@), a@), path_names(crate::order::views_of(names@), b@)),
{
    let ghost nm = crate::order::views_of(names@);
    let ghost pa = path_names(nm, a@);
    let ghost pb = path_names(nm, b@);
    if a.len() != b.len() {
        return a.len() > b.len();
    }
    let mut i: usize = 0;
    assert(pa.skip(0) =~= pa);
    assert(pb.skip(0) =~= pb);
    while i < a.len()
        invariant
            a@.len() == b@.len(),
            i <= a.len(),
            nm == crate::order::views_of(names@),
            pa == path_names(nm, a@),
            pb == path_names(nm, b@),
            forall|x: int| 0 <= x < a@.len() ==> #[trigger] a@[x] < names@.len(),
            forall|x: int| 0 <= x < b@.len() ==> #[trigger] b@[x] < names@.len(),
            names_lt(pa, pb) == names_lt(pa.skip(i as int), pb.skip(i as int)),
        decreases a.len() - i,
    {
        let c = compare_str(names[a[i]].as_str(), names[b[i]].as_str(), false);
        proof {
            assert(pa.skip(i as int)[0] == names@[a@[i as int] as int]@);
            assert(pb.skip(i as int)[0] == names@[b@[i as int] as int]@);
            assert(pa.skip(i as int).drop_first() =~= pa.skip(i + 1));
            assert(pb.skip(i as int).drop_first() =~= pb.skip(i + 1));
        }
        if c == -1 {
            return true;
        }
        if c == 1 {
            return false;
        }
        proof {
            lemma_lex_lt_asym(names@[a@[i as int] as int]@, names@[a@[i as int] as int]@, false);
        }
        i = i + 1;
    }
    proof {
        assert(pa.skip(i as int) =~= Seq::<Seq<char>>::empty());
        assert(pb.skip(i as int) =~= Seq::<Seq<char>>::empty());
    }
    false
}

/// The longest chain of distinct nodes from `start` along edges; among the
/// longest, the one whose names come first in text order.
pub fn longest_chain(g: &DiGraph<String, EdgeKind>, names: &Vec<String>, start: usize) -> (r: Vec<usize>)
    requires
        crate::order::views_of(names@) == graph_nodes(*g),
        start < graph_nodes(*g).len(),
    ensures
        simple_path(graph_edges(*g), graph_nodes(*g).len(), start, r@),
        forall|p: Seq<usize>|
            #[trigger] simple_path(graph_edges(*g), graph_nodes(*g).len(), start, p) ==> !chain_better(
                path_names(graph_nodes(*g), p),
                path_names(graph_nodes(*g), r@),
            ),
{
    let n = graph_node_count(g);
    let mut on: Vec<bool> = Vec::new();
    let mut i: usize = 0;
    while i < n
        invariant
            i <= n,
            on@.len() == i,
            forall|t: int| 0 <= t < i ==> !on@[t],
        decreases n - i,
    {
        on.push(false);
        i = i + 1;
    }
    on.set(start, true);
    let mut path: Vec<usize> = Vec::new();
    path.push(start);
    let mut best: Vec<usize> = Vec::new();
    best.push(start);
    proof {
        assert(names@.len() == crate::order::views_of(names@).len());
        assert forall|t: usize| t < on@.len() implies (#[trigger] on@[t as int] <==> path@.contains(t)) by {
            if t == start {
                assert(path@[0] == start);
            }
        }
        assert(path@ =~= seq![start]);
        lemma_single_simple(graph_edges(*g), graph_nodes(*g).len(), start);
    }
    let ghost p0 = path@;
    proof {
        lemma_count_true_le(on@);
    }
    let ghost fuel0 = (graph_nodes(*g).len() - count_true(on@)) as nat;
    extend_chain(g, names, &mut path, &mut on, &mut best, Ghost(start), Ghost(fuel0));
    proof {
        assert forall|p: Seq<usize>|
            #[trigger] simple_path(graph_edges(*g), graph_nodes(*g).len(), start, p) implies !chain_better(
            path_names(graph_nodes(*g), p),
            path_names(graph_nodes(*g), best@),
        ) by {
            lemma_simple_facts(graph_edges(*g), graph_nodes(*g).len(), start, p);
        }
    }
    best
}

/// The start node of each entry point that names a node (the last node of
/// that name), in entry order.
pub open spec fn entry_starts(names: Seq<Seq<char>>, entries: Seq<Seq<char>>) -> Seq<usize>
    decreases entries.len(),
{
    if entries.len() == 0 {
        Seq::empty()
    } else {
        let prev = entry_starts(names, entries.drop_last());
        if names.contains(entries.last()) {
            prev.push(last_pos(names, entries.last()) as usize)
        } else {
            prev
        }
    }
}

/// The start nodes of the entry points.
pub fn entry_start_nodes(ids: &Vec<String>, entrypoints: &Vec<String>) -> (r: Vec<usize>)
    ensures
        r@ == entry_starts(views_of(ids@), views_of(entrypoints@)),
        forall|q: int| 0 <= q < r@.len() ==> #[trigger] r@[q] < ids@.len(),
{
    let ghost names = views_of(ids@);
    let ghost ev = views_of(entrypoints@);
    let mut out: Vec<usize> = Vec::new();
    let mut e: usize = 0;
    assert(ev.take(0) =~= Seq::<Seq<char>>::empty());
    while e < entrypoints.len()
        invariant
            e <= entrypoints.len(),
            names == views_of(ids@),
            ev == views_of(entrypoints@),
            out@ == entry_starts(names, ev.take(e as int)),
            forall|q: int| 0 <= q < out@.len() ==> #[trigger] out@[q] < ids@.len(),
        decreases entrypoints.len() - e,
    {
        assert(ev.take(e + 1).drop_last() =~= ev.take(e as int));
        assert(ev.take(e + 1).last() == ev[e as int]);
        proof {
            lemma_last_pos(names, ev[e as int]);
        }
        match last_index_of_id(ids, entrypoints[e].as_str()) {
            Some(k) => {
                out.push(k);
            },
            None => {},
        }
        e = e + 1;
    }
    assert(ev.take(ev.len() as int) =~= ev);
    out
}

/// The names of a chain.
pub open spec fn chain_names(c: DependencyChain) -> Seq<Seq<char>> {
    views_of(c.nodes@)
}

/// The order of chains: deeper first, then by names in text order.
pub open spec fn chain_le(a: DependencyChain, b: DependencyChain) -> bool {
    a.depth > b.depth || (a.depth == b.depth && (names_lt(chain_names(a), chain_names(b)) || chain_names(a) == chain_names(
        b,
    )))
}

proof fn lemma_chain_preorder()
    ensures
        total_preorder(|a: DependencyChain, b: DependencyChain| chain_le(a, b)),
{
    let le = |a: DependencyChain, b: DependencyChain| chain_le(a, b);
    assert forall|a: DependencyChain, b: DependencyChain| #[trigger] le(a, b) || #[trigger] le(b, a) by {
        lemma_names_lt_total(chain_names(a), chain_names(b));
    }
    assert forall|a: DependencyChain, b: DependencyChain, c: DependencyChain| #[trigger] le(a, b) && #[trigger] le(b, c) implies le(
        a,
        c,
    ) by {
        if a.depth == b.depth && b.depth == c.depth {
            if names_lt(chain_names(a), chain_names(b)) && names_lt(chain_names(b), chain_names(c)) {
                lemma_names_lt_trans(chain_names(a), chain_names(b), chain_names(c));
            }
        }
    }
}

fn chain_le_exec(a: &DependencyChain, b: &DependencyChain) -> (r: bool)
    ensures
        r == chain_le(*a, *b),
{
    if a.depth != b.depth {
        return a.depth > b.depth;
    }
    let ghost pa = chain_names(*a);
    let ghost pb = chain_names(*b);
    let mut i: usize = 0;
    assert(pa.skip(0) =~= pa);
    assert(pb.skip(0) =~= pb);
    while i < a.nodes.len() && i < b.nodes.len()
        invariant
            i <= a.nodes.len(),
            i <= b.nodes.len(),
            a.depth == b.depth,
            pa == chain_names(*a),
            pb == chain_names(*b),
            names_lt(pa, pb) == names_lt(pa.skip(i as int), pb.skip(i as int)),
            (pa == pb) == (pa.skip(i as int) == pb.skip(i as int)),
        decreases a.nodes.len() - i,
    {
        let c = compare_str(a.nodes[i].as_str(), b.nodes[i].as_str(), false);
        proof {
            assert(pa.skip(i as int)[0] == a.nodes@[i as int]@);
            assert(pb.skip(i as int)[0] == b.nodes@[i as int]@);
            assert(pa.skip(i as int).drop_first() =~= pa.skip(i + 1));
            assert(pb.skip(i as int).drop_first() =~= pb.skip(i + 1));
            lemma_lex_lt_asym(a.nodes@[i as int]@, a.nodes@[i as int]@, false);
        }
        if c == -1 {
            proof {
                lemma_names_lt_irrefl(pa.skip(i as int));
            }
            return true;
        }
        if c == 1 {
            proof {
                lemma_names_lt_total(pa.skip(i as int), pb.skip(i as int));
                if pa.skip(i as int) == pb.skip(i as int) {
                    lemma_lex_lt_asym(pb.skip(i as int)[0], pb.skip(i as int)[0], false);
                }
            }
            return false;
        }
        proof {
            let x = pa.skip(i as int);
            let y = pb.skip(i as int);
            if x.drop_first() == y.drop_first() {
                assert(x =~= seq![x[0]] + x.drop_first());
                assert(y =~= seq![y[0]] + y.drop_first());
            }
        }
        i = i + 1;
    }
    proof {
        let x = pa.skip(i as int);
        let y = pb.skip(i as int);
        if x.len() == 0 && y.len() == 0 {
            assert(x =~= y);
        }
    }
    a.nodes.len() <= b.nodes.len()
}

/// Whether `c` is the chain of the best path from start node `s`.
pub open spec fn best_chain_from(es: Seq<(usize, usize)>, names: Seq<Seq<char>>, s: usize, c: DependencyChain) -> bool {
    &&& c.depth == c.nodes@.len()
    &&& exists|p: Seq<usize>| #[trigger] simple_path(es, names.len(), s, p) && chain_names(c) == path_names(names, p)
    &&& forall|p: Seq<usize>| #[trigger] simple_path(es, names.len(), s, p) ==> !chain_better(path_names(names, p), chain_names(c))
}

/// Whether `d` gives the breadth-first depth of each of the `n` nodes from
/// the start nodes (`None` for a node that cannot be reached).
pub open spec fn depths_ok(es: Seq<(usize, usize)>, n: nat, ss: Set<usize>, d: Seq<Option<usize>>) -> bool {
    d.len() == n && forall|t: int|
        0 <= t < d.len() ==> match #[trigger] d[t] {
            Some(x) => x >= 1 && first_at(es, ss, t as usize, (x - 1) as nat),
            None => !reachable(es, ss, t as usize),
        }
}

/// Whether `all` holds the best chain from each start node, in order.
pub open spec fn chains_ok(es: Seq<(usize, usize)>, names: Seq<Seq<char>>, starts: Seq<usize>, all: Seq<DependencyChain>) -> bool {
    all.len() == starts.len() && forall|i: int| 0 <= i < all.len() ==> #[trigger] best_chain_from(es, names, starts[i], all[i])
}

/// Whether `r` is the first ten of `all` in chain order.
pub open spec fn top_chains(all: Seq<DependencyChain>, r: Seq<DependencyChain>) -> bool {
    exists|sorted: Seq<DependencyChain>|
        sorted_by(sorted, |a: DependencyChain, b: DependencyChain| chain_le(a, b)) && #[trigger] sorted.to_multiset()
            == all.to_multiset() && r == sorted.take(if sorted.len() < 10 { sorted.len() as int } else { 10 })
}

/// The depths and longest chains seen from the entry points.
pub struct DepthSummary {
    /// The depth of the deepest chain (`0` without chains).
    pub maximum_depth: usize,
    /// How many nodes are reachable from the entry points.
    pub reached: usize,
    /// The sum of the depths of the reachable nodes.
    pub depth_total: u128,
    /// The ten best chains, deepest first.
    pub chains: Vec<DependencyChain>,
}

/// The number of reachable nodes among depths.
pub open spec fn reached_count(d: Seq<Option<usize>>) -> nat {
    count_some(d)
}

/// The sum of the depths.
pub open spec fn depth_sum(d: Seq<Option<usize>>) -> int
    decreases d.len(),
{
    if d.len() == 0 {
        0
    } else {
        depth_sum(d.drop_last()) + match d.last() {
            Some(x) => x as int,
            None => 0,
        }
    }
}

proof fn lemma_depth_sum_bound(d: Seq<Option<usize>>)
    ensures
        0 <= depth_sum(d) <= d.len() * usize::MAX,
    decreases d.len(),
{
    if d.len() > 0 {
        lemma_depth_sum_bound(d.drop_last());
        assert((d.len() - 1) * usize::MAX + usize::MAX == d.len() * usize::MAX) by (nonlinear_arith);
    }
}

/// Breadth-first depths from the entry points, and for each entry point the
/// longest chain of distinct files it leads through; the ten best chains,
/// deepest first, are kept.
pub fn depth_analysis(g: &DiGraph<String, EdgeKind>, ids: &Vec<String>, entrypoints: &Vec<String>) -> (r: DepthSummary)
    requires
        graph_nodes(*g) == views_of(ids@),
    ensures
        exists|d: Seq<Option<usize>>|
            #[trigger] depths_ok(graph_edges(*g), graph_nodes(*g).len(), entry_starts(graph_nodes(*g), views_of(entrypoints@)).to_set(), d)
                && r.reached == count_some(d) && r.depth_total == depth_sum(d),
        exists|all: Seq<DependencyChain>|
            #[trigger] chains_ok(graph_edges(*g), graph_nodes(*g), entry_starts(graph_nodes(*g), views_of(entrypoints@)), all)
                && top_chains(all, r.chains@),
        r.maximum_depth == (if r.chains@.len() > 0 { r.chains@[0].depth } else { 0 }),
{
    let ghost names = graph_nodes(*g);
    let starts = entry_start_nodes(ids, entrypoints);
    let ghost sv = starts@;
    let depths = shortest_depths(g, &starts);
    let mut reached: usize = 0;
    let mut total: u128 = 0;
    let mut i: usize = 0;
    assert(depths@.take(0) =~= Seq::<Option<usize>>::empty());
    while i < depths.len()
        invariant
            i <= depths.len(),
            reached == count_some(depths@.take(i as int)),
            total == depth_sum(depths@.take(i as int)),
        decreases depths.len() - i,
    {
        assert(depths@.take(i + 1).drop_last() =~= depths@.take(i as int));
        proof {
            lemma_count_some_le(depths@.take(i as int));
            lemma_depth_sum_bound(depths@.take(i as int));
            assert(i * usize::MAX + usize::MAX <= usize::MAX * usize::MAX + usize::MAX) by (nonlinear_arith)
                requires
                    i < usize::MAX,
            ;
        }
        match depths[i] {
            Some(x) => {
                reached = reached + 1;
                total = total + x as u128;
            },
            None => {},
        }
        i = i + 1;
    }
    assert(depths@.take(depths@.len() as int) =~= depths@);
    let mut chains: Vec<DependencyChain> = Vec::new();
    let ghost mut all: Seq<DependencyChain> = Seq::empty();
    let mut k: usize = 0;
    while k < starts.len()
        invariant
            k <= starts.len(),
            names == graph_nodes(*g),
            names == views_of(ids@),
            sv == starts@,
            forall|q: int| 0 <= q < starts@.len() ==> #[trigger] starts@[q] < ids@.len(),
            chains@ == all,
            all.len() == k,
            forall|q: int| 0 <= q < k ==> #[trigger] best_chain_from(graph_edges(*g), names, sv[q], all[q]),
        decreases starts.len() - k,
    {
        let s = starts[k];
        let best = longest_chain(g, ids, s);
        let mut nodes: Vec<String> = Vec::new();
        let mut q: usize = 0;
        proof {
            lemma_simple_facts(graph_edges(*g), names.len(), s, best@);
        }
        while q < best.len()
            invariant
                q <= best.len(),
                names == views_of(ids@),
                forall|x: int| 0 <= x < best@.len() ==> #[trigger] best@[x] < names.len(),
                views_of(nodes@) == path_names(names, best@.take(q as int)),
            decreases best.len() - q,
        {
            let ghost b = views_of(nodes@);
            nodes.push(ids[best[q]].clone());
            assert(views_of(nodes@) =~= b.push(names[best@[q as int] as int]));
            assert(path_names(names, best@.take(q + 1)) =~= path_names(names, best@.take(q as int)).push(names[best@[q as int] as int]));
            q = q + 1;
        }
        assert(best@.take(best@.len() as int) =~= best@);
        let depth = nodes.len();
        let c = DependencyChain { depth, nodes };
        proof {
            assert(chain_names(c) == path_names(names, best@));
            assert(simple_path(graph_edges(*g), names.len(), s, best@));
        }
        chains.push(c);
        proof {
            all = all.push(c);
        }
        k = k + 1;
    }
    let before = |a: &DependencyChain, b: &DependencyChain| -> (r: bool)
        ensures
            r == chain_le(*a, *b),
        { chain_le_exec(a, b) };
    proof {
        lemma_chain_preorder();
    }
    let mut sorted = stable_sort(chains, &before, Ghost(|a: DependencyChain, b: DependencyChain| chain_le(a, b)));
    let ghost full = sorted@;
    sorted.truncate(10);
    let maximum_depth = if sorted.len() > 0 {
        sorted[0].depth
    } else {
        0
    };
    proof {
        assert(sorted@ == full.take(if full.len() < 10 { full.len() as int } else { 10 }));
        assert(chains_ok(graph_edges(*g), names, sv, all));
        assert(top_chains(all, sorted@));
        assert(depths_ok(graph_edges(*g), names.len(), sv.to_set(), depths@));
    }
    DepthSummary { maximum_depth, reached, depth_total: total, chains: sorted }
}

} // verus!
