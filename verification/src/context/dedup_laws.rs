//! Near-duplicate detection depends on nothing but its input.

use vstd::prelude::*;
use vstd::relations::sorted_by;
use crate::context::dedup::{
    DedupConfig, DuplicateGroup, DuplicateMember, increasing, shingles_ok, dedup_ok, group_ok, keys_of,
    components, component_list, connected, is_group, entry_paths, member_view, members_sorted,
    shared_count, union_count, lemma_components_are_lists, lemma_filter_increasing, link_within, link_step,
    linked, shares_band,
};

verus! {

proof fn lemma_increasing_unique(a: Seq<u64>, b: Seq<u64>)
    requires
        increasing(a),
        increasing(b),
        a.to_set() == b.to_set(),
    ensures
        a == b,
    decreases a.len(),
{
    if a.len() > 0 {
        assert(a.to_set().contains(a[0]));
        assert(b.contains(a[0]));
    }
    if b.len() > 0 {
        assert(b.to_set().contains(b[0]));
        assert(a.contains(b[0]));
    }
    if a.len() > 0 && b.len() > 0 {
        let i = choose|i: int| 0 <= i < b.len() && b[i] == a[0];
        let j = choose|j: int| 0 <= j < a.len() && a[j] == b[0];
        assert(b[0] <= b[i]);
        assert(a[0] <= a[j]);
        assert(a[0] == b[0]);
        let a1 = a.drop_first();
        let b1 = b.drop_first();
        assert forall|x: u64| a1.to_set().contains(x) implies b1.to_set().contains(x) by {
            assert(a1.contains(x));
            let k = choose|k: int| 0 <= k < a1.len() && a1[k] == x;
            assert(a[k + 1] == x && a[0] < x);
            assert(a.to_set().contains(x));
            assert(b.contains(x));
            let l = choose|l: int| 0 <= l < b.len() && b[l] == x;
            assert(l != 0);
            assert(b1[l - 1] == x);
            assert(b1.contains(x));
        }
        assert forall|x: u64| b1.to_set().contains(x) implies a1.to_set().contains(x) by {
            assert(b1.contains(x));
            let k = choose|k: int| 0 <= k < b1.len() && b1[k] == x;
            assert(b[k + 1] == x && b[0] < x);
            assert(b.to_set().contains(x));
            assert(a.contains(x));
            let l = choose|l: int| 0 <= l < a.len() && a[l] == x;
            assert(l != 0);
            assert(a1[l - 1] == x);
            assert(a1.contains(x));
        }
        assert(a1.to_set() =~= b1.to_set());
        lemma_increasing_unique(a1, b1);
        assert(a =~= seq![a[0]] + a1);
        assert(b =~= seq![b[0]] + b1);
    }
}

proof fn lemma_shingles_unique(r1: Seq<u64>, r2: Seq<u64>, content: Seq<char>, k: nat, cap: nat)
    requires
        shingles_ok(r1, content, k, cap),
        shingles_ok(r2, content, k, cap),
    ensures
        r1 == r2,
{
    let tokens = crate::context::dedup::token_hashes_spec(content);
    if tokens.len() >= k {
        let all1 = choose|all: Seq<u64>|
            #![trigger increasing(all)]
            increasing(all) && all.to_set() == crate::context::dedup::window_values(tokens, k).to_set() && r1 == (
            if all.len() > cap {
                crate::context::dedup::sample(all, crate::context::dedup::ceil_div(all.len(), cap))
            } else {
                all
            });
        let all2 = choose|all: Seq<u64>|
            #![trigger increasing(all)]
            increasing(all) && all.to_set() == crate::context::dedup::window_values(tokens, k).to_set() && r2 == (
            if all.len() > cap {
                crate::context::dedup::sample(all, crate::context::dedup::ceil_div(all.len(), cap))
            } else {
                all
            });
        lemma_increasing_unique(all1, all2);
    } else {
        assert(r1 =~= r2);
    }
}

proof fn lemma_group_indices(
    r: Seq<DuplicateGroup>,
    sh: Seq<Seq<u64>>,
    entries: Seq<(String, String)>,
    config: DedupConfig,
    g: int,
) -> (c: Seq<int>)
    requires
        dedup_ok(r, sh, entries, config),
        0 <= g < r.len(),
    ensures
        c == components(
            sh,
            keys_of(sh, config.signature_count as nat, config.band_size as nat),
            config.similarity_threshold_millionths,
            entries.len(),
        ).1.filter(|c: Seq<int>| is_group(c))[g],
        c.len() >= 2,
        forall|i: int, j: int| 0 <= i < j < c.len() ==> c[i] < c[j],
        forall|i: int| 0 <= i < c.len() ==> 0 <= #[trigger] c[i] < entries.len(),
{
    let keys = keys_of(sh, config.signature_count as nat, config.band_size as nat);
    let t = config.similarity_threshold_millionths;
    let all = components(sh, keys, t, entries.len()).1;
    let gp = |c: Seq<int>| is_group(c);
    let gs = all.filter(gp);
    let c = gs[g];
    all.lemma_filter_pred(gp, g);
    assert(gs.contains(c));
    all.lemma_filter_contains_rev(gp, c);
    let idx = choose|i: int| 0 <= i < all.len() && all[i] == c;
    lemma_components_are_lists(sh, keys, t, entries.len(), idx);
    let st = choose|st: int| #[trigger] component_list(sh, keys, t, st) == all[idx];
    let base = Seq::new(sh.len(), |i: int| i);
    let pred = |v: int| connected(sh, keys, t, st, v);
    assert(c == base.filter(pred));
    lemma_filter_increasing(base, pred);
    assert forall|i: int| 0 <= i < c.len() implies 0 <= #[trigger] c[i] < entries.len() by {
        assert(c.contains(c[i]));
        assert(base.contains(c[i]));
    }
    c
}

proof fn lemma_within_grows(sh: Seq<Seq<u64>>, keys: Seq<Seq<u64>>, t: u64, start: int, a: nat, b: nat)
    requires
        a <= b,
    ensures
        link_within(sh, keys, t, start, a).subset_of(link_within(sh, keys, t, start, b)),
    decreases b,
{
    if a < b {
        lemma_within_grows(sh, keys, t, start, a, (b - 1) as nat);
    }
}

proof fn lemma_within_trans(sh: Seq<Seq<u64>>, keys: Seq<Seq<u64>>, t: u64, v: int, u: int, w: int, a: nat, b: nat)
    requires
        link_within(sh, keys, t, v, a).contains(u),
        link_within(sh, keys, t, u, b).contains(w),
    ensures
        link_within(sh, keys, t, v, a + b).contains(w),
    decreases b,
{
    if b > 0 {
        let prev = link_within(sh, keys, t, u, (b - 1) as nat);
        if prev.contains(w) {
            lemma_within_trans(sh, keys, t, v, u, w, a, (b - 1) as nat);
            lemma_within_grows(sh, keys, t, v, (a + b - 1) as nat, a + b);
        } else {
            let x = choose|x: int| prev.contains(x) && #[trigger] linked(sh, keys, t, x, w);
            lemma_within_trans(sh, keys, t, v, u, x, a, (b - 1) as nat);
            assert(link_within(sh, keys, t, v, (a + b - 1) as nat).contains(x));
            assert(link_within(sh, keys, t, v, a + b) == link_step(sh, keys, t, link_within(sh, keys, t, v, (a + b - 1) as nat)));
        }
    }
}

proof fn lemma_linked_symmetric(sh: Seq<Seq<u64>>, keys: Seq<Seq<u64>>, t: u64, u: int, v: int)
    requires
        linked(sh, keys, t, u, v),
    ensures
        linked(sh, keys, t, v, u),
{
    let b = choose|b: int| 0 <= b < keys[u].len() && b < keys[v].len() && keys[u][b] == keys[v][b];
    assert(shares_band(keys[v], keys[u]));
}

proof fn lemma_within_symmetric(sh: Seq<Seq<u64>>, keys: Seq<Seq<u64>>, t: u64, start: int, v: int, m: nat)
    requires
        link_within(sh, keys, t, start, m).contains(v),
    ensures
        link_within(sh, keys, t, v, m).contains(start),
    decreases m,
{
    if m > 0 {
        let prev = link_within(sh, keys, t, start, (m - 1) as nat);
        if prev.contains(v) {
            lemma_within_symmetric(sh, keys, t, start, v, (m - 1) as nat);
            lemma_within_grows(sh, keys, t, v, (m - 1) as nat, m);
        } else {
            let u = choose|u: int| prev.contains(u) && #[trigger] linked(sh, keys, t, u, v);
            lemma_within_symmetric(sh, keys, t, start, u, (m - 1) as nat);
            lemma_linked_symmetric(sh, keys, t, u, v);
            assert(link_within(sh, keys, t, v, 0).contains(v));
            assert(link_within(sh, keys, t, v, 1) == link_step(sh, keys, t, link_within(sh, keys, t, v, 0)));
            assert(link_within(sh, keys, t, v, 1).contains(u));
            lemma_within_trans(sh, keys, t, v, u, start, 1, (m - 1) as nat);
        }
    }
}

proof fn lemma_connected_meet(sh: Seq<Seq<u64>>, keys: Seq<Seq<u64>>, t: u64, a: int, b: int, v: int)
    requires
        connected(sh, keys, t, a, v),
        connected(sh, keys, t, b, v),
    ensures
        connected(sh, keys, t, a, b),
{
    let m1 = choose|m: nat| #[trigger] link_within(sh, keys, t, a, m).contains(v);
    let m2 = choose|m: nat| #[trigger] link_within(sh, keys, t, b, m).contains(v);
    lemma_within_symmetric(sh, keys, t, b, v, m2);
    lemma_within_trans(sh, keys, t, a, v, b, m1, m2);
}

/// The components found while scanning are component lists of entries,
/// their union is the set of entries already grouped, and no entry lies in
/// two of them.
proof fn lemma_components_disjoint(sh: Seq<Seq<u64>>, keys: Seq<Seq<u64>>, t: u64, s: nat)
    requires
        s <= sh.len(),
    ensures
        forall|k: int| 0 <= k < components(sh, keys, t, s).1.len() ==> exists|st: int|
            0 <= st < sh.len() && #[trigger] components(sh, keys, t, s).1[k] == component_list(sh, keys, t, st),
        forall|k: int, v: int|
            0 <= k < components(sh, keys, t, s).1.len() && #[trigger] components(sh, keys, t, s).1[k].contains(v)
                ==> components(sh, keys, t, s).0.contains(v),
        forall|v: int| #[trigger] components(sh, keys, t, s).0.contains(v) ==> exists|k: int|
            0 <= k < components(sh, keys, t, s).1.len() && components(sh, keys, t, s).1[k].contains(v),
        forall|k1: int, k2: int, v: int|
            0 <= k1 < k2 < components(sh, keys, t, s).1.len() && #[trigger] components(sh, keys, t, s).1[k1].contains(v)
                ==> !#[trigger] components(sh, keys, t, s).1[k2].contains(v),
    decreases s,
{
    if s > 0 {
        lemma_components_disjoint(sh, keys, t, (s - 1) as nat);
        let p = components(sh, keys, t, (s - 1) as nat);
        let st = s - 1;
        if !p.0.contains(st) {
            let c = component_list(sh, keys, t, st);
            let q = components(sh, keys, t, s);
            assert(q.1 == p.1.push(c));
            let base = Seq::new(sh.len(), |i: int| i);
            let pred = |v: int| connected(sh, keys, t, st, v);
            assert(c == base.filter(pred));
            assert forall|k1: int, k2: int, v: int|
                0 <= k1 < k2 < q.1.len() && #[trigger] q.1[k1].contains(v) implies !#[trigger] q.1[k2].contains(v) by {
                if k2 == q.1.len() - 1 && c.contains(v) {
                    assert(q.1[k1] == p.1[k1]);
                    let st1 = choose|st1: int| 0 <= st1 < sh.len() && #[trigger] p.1[k1] == component_list(sh, keys, t, st1);
                    let pred1 = |x: int| connected(sh, keys, t, st1, x);
                    assert(p.1[k1] == base.filter(pred1));
                    let f1 = base.filter(pred1);
                    let x1 = choose|x: int| 0 <= x < f1.len() && f1[x] == v;
                    base.lemma_filter_pred(pred1, x1);
                    let x2 = choose|x: int| 0 <= x < c.len() && c[x] == v;
                    base.lemma_filter_pred(pred, x2);
                    assert(pred1(v) && pred(v));
                    lemma_connected_meet(sh, keys, t, st1, st, v);
                    assert(base[st] == st);
                    base.lemma_filter_contains(pred1, st);
                    assert(p.1[k1].contains(st));
                    assert(p.0.contains(st));
                } else if k2 < q.1.len() - 1 {
                    assert(q.1[k1] == p.1[k1] && q.1[k2] == p.1[k2]);
                }
            }
            assert forall|k: int, v: int| 0 <= k < q.1.len() && #[trigger] q.1[k].contains(v) implies q.0.contains(v) by {
                if k < p.1.len() {
                    assert(q.1[k] == p.1[k]);
                }
            }
            assert forall|v: int| #[trigger] q.0.contains(v) implies exists|k: int| 0 <= k < q.1.len() && q.1[k].contains(v) by {
                if p.0.contains(v) {
                    let k = choose|k: int| 0 <= k < p.1.len() && p.1[k].contains(v);
                    assert(q.1[k] == p.1[k]);
                } else {
                    assert(c.to_set().contains(v));
                    assert(q.1[q.1.len() - 1] == c);
                }
            }
            assert forall|k: int| 0 <= k < q.1.len() implies exists|x: int|
                0 <= x < sh.len() && #[trigger] q.1[k] == component_list(sh, keys, t, x) by {
                if k < p.1.len() {
                    assert(q.1[k] == p.1[k]);
                } else {
                    assert(q.1[k] == component_list(sh, keys, t, st));
                }
            }
        }
    }
}

/// No entry lies in two near-duplicate groups, so no two groups share a
/// representative.
pub proof fn law_groups_disjoint(
    r: Seq<DuplicateGroup>,
    sh: Seq<Seq<u64>>,
    entries: Seq<(String, String)>,
    config: DedupConfig,
)
    requires
        dedup_ok(r, sh, entries, config),
        forall|a: int, b: int| 0 <= a < b < entries.len() ==> entries[a].0@ != entries[b].0@,
    ensures
        forall|i: int, j: int|
            0 <= i < j < r.len() ==> (#[trigger] r[i]).representative@ != (#[trigger] r[j]).representative@,
{
    let keys = keys_of(sh, config.signature_count as nat, config.band_size as nat);
    let t = config.similarity_threshold_millionths;
    let all = components(sh, keys, t, entries.len()).1;
    let gp = |c: Seq<int>| is_group(c);
    let gs = all.filter(gp);
    lemma_components_disjoint(sh, keys, t, entries.len());
    let paths = entry_paths(entries);
    assert forall|i: int, j: int| 0 <= i < j < r.len() implies (#[trigger] r[i]).representative@
        != (#[trigger] r[j]).representative@ by {
        let ci = lemma_group_indices(r, sh, entries, config, i);
        let cj = lemma_group_indices(r, sh, entries, config, j);
        assert(group_ok(r[i], ci, paths, sh));
        assert(group_ok(r[j], cj, paths, sh));
        lemma_filter_positions(all, gp, i, j);
        let ki = choose|ki: int, kj: int| 0 <= ki < kj < all.len() && all[ki] == gs[i] && all[kj] == gs[j];
        assert(all[ki.0].contains(ci[0]));
        assert(all[ki.1].contains(cj[0]));
        assert(ci[0] != cj[0]);
        if ci[0] < cj[0] {
            assert(entries[ci[0]].0@ != entries[cj[0]].0@);
        } else {
            assert(entries[cj[0]].0@ != entries[ci[0]].0@);
        }
    }
}

/// Two positions of a filtered sequence come from two positions of the
/// sequence, in the same order.
proof fn lemma_filter_positions<A>(s: Seq<A>, p: spec_fn(A) -> bool, i: int, j: int)
    requires
        0 <= i < j < s.filter(p).len(),
    ensures
        exists|a: int, b: int| 0 <= a < b < s.len() && s[a] == s.filter(p)[i] && s[b] == s.filter(p)[j],
    decreases s.len(),
{
    reveal(Seq::filter);
    let dl = s.drop_last();
    let f = dl.filter(p);
    if p(s.last()) {
        assert(s.filter(p) == f.push(s.last()));
        if j < f.len() {
            lemma_filter_positions(dl, p, i, j);
            let (a, b) = choose|a: int, b: int| 0 <= a < b < dl.len() && dl[a] == f[i] && dl[b] == f[j];
            assert(s[a] == dl[a] && s[b] == dl[b]);
        } else {
            dl.lemma_filter_pred(p, i);
            assert(f.contains(f[i]));
            dl.lemma_filter_contains_rev(p, f[i]);
            let a = choose|a: int| 0 <= a < dl.len() && dl[a] == f[i];
            assert(s[a] == dl[a]);
            assert(s[s.len() - 1] == s.filter(p)[j]);
        }
    } else {
        assert(s.filter(p) == f);
        lemma_filter_positions(dl, p, i, j);
        let (a, b) = choose|a: int, b: int| 0 <= a < b < dl.len() && dl[a] == f[i] && dl[b] == f[j];
        assert(s[a] == dl[a] && s[b] == dl[b]);
    }
}

/// Near-duplicate detection is a function of its input: any two results
/// that meet its contract for the same entries and configuration have the
/// same shingle sets and the same groups in the same order, with the same
/// representatives and the same members, counts and order.
pub proof fn law_dedup_deterministic(
    r1: Seq<DuplicateGroup>,
    sh1: Seq<Seq<u64>>,
    r2: Seq<DuplicateGroup>,
    sh2: Seq<Seq<u64>>,
    entries: Seq<(String, String)>,
    config: DedupConfig,
)
    requires
        dedup_ok(r1, sh1, entries, config),
        dedup_ok(r2, sh2, entries, config),
    ensures
        sh1 == sh2,
        r1.len() == r2.len(),
        forall|i: int|
            0 <= i < r1.len() ==> (#[trigger] r1[i]).representative@ == r2[i].representative@
                && r1[i].members@.map_values(|m: DuplicateMember| member_view(m))
                == r2[i].members@.map_values(|m: DuplicateMember| member_view(m)),
{
    assert forall|i: int| 0 <= i < sh1.len() implies sh1[i] == sh2[i] by {
        assert(shingles_ok(sh1[i], entries[i].1@, config.shingle_size as nat, config.max_shingles_per_file as nat));
        assert(shingles_ok(sh2[i], entries[i].1@, config.shingle_size as nat, config.max_shingles_per_file as nat));
        lemma_shingles_unique(sh1[i], sh2[i], entries[i].1@, config.shingle_size as nat, config.max_shingles_per_file as nat);
    }
    assert(sh1 =~= sh2);
    let sh = sh1;
    let paths = entry_paths(entries);
    assert forall|i: int| 0 <= i < r1.len() implies (#[trigger] r1[i]).representative@ == r2[i].representative@
        && r1[i].members@.map_values(|m: DuplicateMember| member_view(m))
        == r2[i].members@.map_values(|m: DuplicateMember| member_view(m)) by {
        let c = lemma_group_indices(r1, sh, entries, config, i);
        assert(group_ok(r1[i], c, paths, sh));
        assert(group_ok(r2[i], c, paths, sh));
    }
}

} // verus!
