//! An optimised plan depends on nothing but the request: its ranking,
//! its near-duplicate groups, its decisions and its totals.

use vstd::prelude::*;
use crate::context::dedup::{DedupConfig, DuplicateGroup, DuplicateMember, dedup_ok, entry_paths, member_view};
use crate::context::dedup_laws::law_dedup_deterministic;
use crate::context::engine::{
    ranked_ok, rank_of, groups_ok, group_order, expected_entries, entry_views, OptimizerConfig, ContextRequest,
    OptimizedPlan, Decision, plan_ok, member_in, dup_of, items_of, decision_view, decision_data, decision_totals,
    unread_notes, before_totals, counts_fit,
};
use crate::context::models::DroppedFile;
use crate::context::optimizer::{CandidateMeta, GraphSignals, cand_view, dedup_limit_spec, dropped_view};
use crate::order::{lex_le, sort_spec, lemma_sort_map};
use crate::repo::models::{EntryPoint, FileEntry, Module};

verus! {

/// Every plan that optimisation returns for the same request holds the
/// same ranked candidates, in the same order.
pub proof fn law_plan_ranking_deterministic(
    cfg: OptimizerConfig,
    files: Seq<FileEntry>,
    ms: Seq<Module>,
    eps: Seq<EntryPoint>,
    graph: Option<&GraphSignals>,
    request: ContextRequest,
    cs1: Seq<CandidateMeta>,
    cs2: Seq<CandidateMeta>,
)
    requires
        ranked_ok(cs1, rank_of(cfg, files, ms, eps, graph, request).2, request.min_relevance_millionths),
        ranked_ok(cs2, rank_of(cfg, files, ms, eps, graph, request).2, request.min_relevance_millionths),
    ensures
        cs1.map_values(|c: CandidateMeta| cand_view(c)) == cs2.map_values(|c: CandidateMeta| cand_view(c)),
{
}

/// A group as (representative, member views).
pub open spec fn group_view(g: DuplicateGroup) -> (Seq<char>, Seq<(Seq<char>, int, int)>) {
    (g.representative@, g.members@.map_values(|m: DuplicateMember| member_view(m)))
}

/// Group views ordered by representative.
pub open spec fn group_view_order() -> spec_fn((Seq<char>, Seq<(Seq<char>, int, int)>), (Seq<char>, Seq<(Seq<char>, int, int)>)) -> bool {
    |a: (Seq<char>, Seq<(Seq<char>, int, int)>), b: (Seq<char>, Seq<(Seq<char>, int, int)>)| lex_le(a.0, b.0, false)
}

proof fn lemma_expected_same(
    cs1: Seq<CandidateMeta>,
    cs2: Seq<CandidateMeta>,
    files: Seq<FileEntry>,
    contents: Seq<Option<String>>,
)
    requires
        cs1.len() == cs2.len(),
        forall|i: int| 0 <= i < cs1.len() ==> #[trigger] cs1[i].path@ == cs2[i].path@,
    ensures
        expected_entries(cs1, files, contents) == expected_entries(cs2, files, contents),
    decreases cs1.len(),
{
    if cs1.len() > 0 {
        let d1 = cs1.drop_last();
        let d2 = cs2.drop_last();
        assert forall|i: int| 0 <= i < d1.len() implies #[trigger] d1[i].path@ == d2[i].path@ by {
            assert(d1[i] == cs1[i] && d2[i] == cs2[i]);
        }
        lemma_expected_same(d1, d2, files, contents);
        assert(cs1.last().path@ == cs2.last().path@);
    }
}

/// `dedup_ok` reads its entries only through their views.
proof fn lemma_dedup_views(g: Seq<DuplicateGroup>, sh: Seq<Seq<u64>>, e1: Seq<(String, String)>, e2: Seq<(String, String)>, cfg: DedupConfig)
    requires
        dedup_ok(g, sh, e2, cfg),
        entry_views(e1) == entry_views(e2),
    ensures
        dedup_ok(g, sh, e1, cfg),
{
    assert(e1.len() == entry_views(e1).len() && e2.len() == entry_views(e2).len());
    assert forall|i: int| 0 <= i < e1.len() implies e1[i].0@ == e2[i].0@ && e1[i].1@ == e2[i].1@ by {
        assert(entry_views(e1)[i] == entry_views(e2)[i]);
    }
    assert(entry_paths(e1) =~= entry_paths(e2));
}

/// Every plan that optimisation returns for the same request holds the
/// same near-duplicate groups, in the same order, with the same
/// representatives, members and counts.
pub proof fn law_plan_groups_deterministic(
    cfg: OptimizerConfig,
    files: Seq<FileEntry>,
    ms: Seq<Module>,
    eps: Seq<EntryPoint>,
    graph: Option<&GraphSignals>,
    request: ContextRequest,
    contents: Seq<Option<String>>,
    cs1: Seq<CandidateMeta>,
    gs1: Seq<DuplicateGroup>,
    cs2: Seq<CandidateMeta>,
    gs2: Seq<DuplicateGroup>,
)
    requires
        ranked_ok(cs1, rank_of(cfg, files, ms, eps, graph, request).2, request.min_relevance_millionths),
        ranked_ok(cs2, rank_of(cfg, files, ms, eps, graph, request).2, request.min_relevance_millionths),
        groups_ok(cs1, gs1, cfg, request, files, contents),
        groups_ok(cs2, gs2, cfg, request, files, contents),
    ensures
        gs1.map_values(|g: DuplicateGroup| group_view(g)) == gs2.map_values(|g: DuplicateGroup| group_view(g)),
{
    law_plan_ranking_deterministic(cfg, files, ms, eps, graph, request, cs1, cs2);
    let v1 = cs1.map_values(|c: CandidateMeta| cand_view(c));
    let v2 = cs2.map_values(|c: CandidateMeta| cand_view(c));
    assert(cs1.len() == v1.len() && cs2.len() == v2.len());
    let lim = dedup_limit_spec(cfg.max_dedup_candidates, cs1.len() as usize, request.max_files);
    let gv = |g: DuplicateGroup| group_view(g);
    if cfg.dedup_enabled && lim >= 2 {
        let t1 = cs1.take(lim);
        let t2 = cs2.take(lim);
        assert forall|i: int| 0 <= i < t1.len() implies #[trigger] t1[i].path@ == t2[i].path@ by {
            assert(v1[i] == v2[i]);
        }
        lemma_expected_same(t1, t2, files, contents);
        let e1 = choose|e: Seq<(String, String)>|
            {
                &&& #[trigger] entry_views(e) == expected_entries(cs1.take(lim), files, contents)
                &&& (e.len() >= 2 ==> exists|sh: Seq<Seq<u64>>, g: Seq<DuplicateGroup>|
                    #[trigger] dedup_ok(g, sh, e, cfg.dedup_config) && gs1.to_multiset() == g.to_multiset()
                        && gs1 == sort_spec(g, group_order()))
                &&& (e.len() < 2 ==> gs1.len() == 0)
            };
        let e2 = choose|e: Seq<(String, String)>|
            {
                &&& #[trigger] entry_views(e) == expected_entries(cs2.take(lim), files, contents)
                &&& (e.len() >= 2 ==> exists|sh: Seq<Seq<u64>>, g: Seq<DuplicateGroup>|
                    #[trigger] dedup_ok(g, sh, e, cfg.dedup_config) && gs2.to_multiset() == g.to_multiset()
                        && gs2 == sort_spec(g, group_order()))
                &&& (e.len() < 2 ==> gs2.len() == 0)
            };
        assert(e1.len() == entry_views(e1).len() && e2.len() == entry_views(e2).len());
        if e1.len() >= 2 {
            let (sh1, g1) = choose|sh: Seq<Seq<u64>>, g: Seq<DuplicateGroup>|
                #[trigger] dedup_ok(g, sh, e1, cfg.dedup_config) && gs1.to_multiset() == g.to_multiset()
                    && gs1 == sort_spec(g, group_order());
            let (sh2, g2) = choose|sh: Seq<Seq<u64>>, g: Seq<DuplicateGroup>|
                #[trigger] dedup_ok(g, sh, e2, cfg.dedup_config) && gs2.to_multiset() == g.to_multiset()
                    && gs2 == sort_spec(g, group_order());
            lemma_dedup_views(g2, sh2, e1, e2, cfg.dedup_config);
            law_dedup_deterministic(g1, sh1, g2, sh2, e1, cfg.dedup_config);
            assert(g1.map_values(gv) =~= g2.map_values(gv));
            assert forall|a: DuplicateGroup, b: DuplicateGroup| #[trigger] group_order()(a, b) == group_view_order()(gv(a), gv(b)) by {}
            lemma_sort_map(g1, gv, group_order(), group_view_order());
            lemma_sort_map(g2, gv, group_order(), group_view_order());
        } else {
            assert(gs1.len() == 0 && gs2.len() == 0);
            assert(gs1.map_values(gv) =~= gs2.map_values(gv));
        }
    } else {
        assert(gs1.len() == 0 && gs2.len() == 0);
        assert(gs1.map_values(gv) =~= gs2.map_values(gv));
    }
}

proof fn lemma_member_in_same(m1: Seq<DuplicateMember>, m2: Seq<DuplicateMember>, p: Seq<char>)
    requires
        m1.map_values(|m: DuplicateMember| member_view(m)) == m2.map_values(|m: DuplicateMember| member_view(m)),
    ensures
        member_in(m1, p) == member_in(m2, p),
    decreases m1.len(),
{
    let v1 = m1.map_values(|m: DuplicateMember| member_view(m));
    let v2 = m2.map_values(|m: DuplicateMember| member_view(m));
    assert(m1.len() == v1.len() && m2.len() == v2.len());
    if m1.len() > 0 {
        assert(v1[m1.len() - 1] == v2[m2.len() - 1]);
        let d1 = m1.drop_last();
        let d2 = m2.drop_last();
        assert(d1.map_values(|m: DuplicateMember| member_view(m)) =~= d2.map_values(|m: DuplicateMember| member_view(m))) by {
            assert forall|i: int| 0 <= i < d1.len() implies member_view(d1[i]) == member_view(d2[i]) by {
                assert(v1[i] == v2[i]);
            }
        }
        lemma_member_in_same(d1, d2, p);
    }
}

proof fn lemma_dup_of_same(g1: Seq<DuplicateGroup>, g2: Seq<DuplicateGroup>, p: Seq<char>)
    requires
        g1.map_values(|g: DuplicateGroup| group_view(g)) == g2.map_values(|g: DuplicateGroup| group_view(g)),
    ensures
        dup_of(g1, p) == dup_of(g2, p),
    decreases g1.len(),
{
    let w1 = g1.map_values(|g: DuplicateGroup| group_view(g));
    let w2 = g2.map_values(|g: DuplicateGroup| group_view(g));
    assert(g1.len() == w1.len() && g2.len() == w2.len());
    if g1.len() > 0 {
        assert(w1[g1.len() - 1] == w2[g2.len() - 1]);
        lemma_member_in_same(g1.last().members@, g2.last().members@, p);
        let d1 = g1.drop_last();
        let d2 = g2.drop_last();
        assert(d1.map_values(|g: DuplicateGroup| group_view(g)) =~= d2.map_values(|g: DuplicateGroup| group_view(g))) by {
            assert forall|i: int| 0 <= i < d1.len() implies group_view(d1[i]) == group_view(d2[i]) by {
                assert(w1[i] == w2[i]);
            }
        }
        lemma_dup_of_same(d1, d2, p);
    }
}

proof fn lemma_select_run_len(st: crate::context::pruner::PrunerView, items: Seq<(bool, nat)>)
    ensures
        crate::context::optimizer::select_run(st, items).1.len() == items.len(),
    decreases items.len(),
{
    if items.len() > 0 {
        lemma_select_run_len(st, items.drop_last());
    }
}

/// A decision with every field taken by its view.
pub open spec fn decision_full_view(d: Decision) -> (nat, nat, Option<Seq<char>>, Seq<char>, nat, nat) {
    match d {
        Decision::Kept { tokens, content } => (0, tokens as nat, crate::context::optimizer::opt_string_view(content), Seq::empty(), 0, 0),
        Decision::Duplicate { representative, shared, union } => (1, 0, None, representative@, shared as nat, union as nat),
        Decision::OverBudget { detail } => (2, 0, None, detail@, 0, 0),
    }
}

proof fn lemma_totals_same(ds1: Seq<Decision>, ds2: Seq<Decision>, cs1: Seq<CandidateMeta>, cs2: Seq<CandidateMeta>)
    requires
        ds1.len() == ds2.len(),
        cs1.len() == cs2.len(),
        forall|i: int| 0 <= i < ds1.len() ==> decision_full_view(#[trigger] ds1[i]) == decision_full_view(ds2[i]),
        forall|i: int| 0 <= i < cs1.len() ==> cand_view(#[trigger] cs1[i]) == cand_view(cs2[i]),
    ensures
        decision_totals(ds1, cs1) == decision_totals(ds2, cs2),
        unread_notes(ds1, cs1) == unread_notes(ds2, cs2),
    decreases ds1.len(),
{
    if ds1.len() > 0 {
        let d1 = ds1.drop_last();
        let d2 = ds2.drop_last();
        assert forall|i: int| 0 <= i < d1.len() implies decision_full_view(#[trigger] d1[i]) == decision_full_view(d2[i]) by {
            assert(d1[i] == ds1[i] && d2[i] == ds2[i]);
        }
        lemma_totals_same(d1, d2, cs1, cs2);
        assert(decision_full_view(ds1[ds1.len() - 1]) == decision_full_view(ds2[ds2.len() - 1]));
        if cs1.len() >= ds1.len() {
            assert(cand_view(cs1[ds1.len() - 1]) == cand_view(cs2[ds1.len() - 1]));
        }
    }
}

proof fn lemma_before_same(cs1: Seq<CandidateMeta>, cs2: Seq<CandidateMeta>)
    requires
        cs1.len() == cs2.len(),
        forall|i: int| 0 <= i < cs1.len() ==> cand_view(#[trigger] cs1[i]) == cand_view(cs2[i]),
    ensures
        before_totals(cs1) == before_totals(cs2),
    decreases cs1.len(),
{
    if cs1.len() > 0 {
        let d1 = cs1.drop_last();
        let d2 = cs2.drop_last();
        assert forall|i: int| 0 <= i < d1.len() implies cand_view(#[trigger] d1[i]) == cand_view(d2[i]) by {
            assert(d1[i] == cs1[i] && d2[i] == cs2[i]);
        }
        lemma_before_same(d1, d2);
        assert(cand_view(cs1[cs1.len() - 1]) == cand_view(cs2[cs1.len() - 1]));
    }
}

/// Optimisation is a function of its input: two plans that meet its
/// contract for the same configuration, analysis and request are equal
/// field by field (strings by their text): candidates, files set aside,
/// groups, decisions, totals and notes.
pub proof fn law_plan_deterministic(
    cfg: OptimizerConfig,
    files: Seq<FileEntry>,
    ms: Seq<Module>,
    eps: Seq<EntryPoint>,
    graph: Option<&GraphSignals>,
    request: ContextRequest,
    contents: Seq<Option<String>>,
    p1: OptimizedPlan,
    p2: OptimizedPlan,
)
    requires
        plan_ok(p1, cfg, files, ms, eps, graph, request, contents),
        plan_ok(p2, cfg, files, ms, eps, graph, request, contents),
    ensures
        p1.candidates@.map_values(|c: CandidateMeta| cand_view(c)) == p2.candidates@.map_values(|c: CandidateMeta| cand_view(c)),
        p1.gated@.map_values(|d: DroppedFile| dropped_view(d)) == p2.gated@.map_values(|d: DroppedFile| dropped_view(d)),
        p1.below@.map_values(|c: CandidateMeta| cand_view(c)) == p2.below@.map_values(|c: CandidateMeta| cand_view(c)),
        p1.groups@.map_values(|g: DuplicateGroup| group_view(g)) == p2.groups@.map_values(|g: DuplicateGroup| group_view(g)),
        p1.decisions@.map_values(|d: Decision| decision_full_view(d)) == p2.decisions@.map_values(|d: Decision| decision_full_view(d)),
        p1.excluded == p2.excluded,
        p1.files_considered == p2.files_considered,
        p1.best_score == p2.best_score,
        p1.tokens == p2.tokens,
        p1.bytes_before == p2.bytes_before,
        p1.bytes_after == p2.bytes_after,
        p1.bytes_saved == p2.bytes_saved,
        p1.files_collapsed == p2.files_collapsed,
        p1.files_over_budget == p2.files_over_budget,
        p1.files_selected == p2.files_selected,
        crate::order::views_of(p1.warnings@) == crate::order::views_of(p2.warnings@),
{
    reveal(plan_ok);
    let cs1 = p1.candidates@;
    let cs2 = p2.candidates@;
    let gs1 = p1.groups@;
    let gs2 = p2.groups@;
    law_plan_ranking_deterministic(cfg, files, ms, eps, graph, request, cs1, cs2);
    law_plan_groups_deterministic(cfg, files, ms, eps, graph, request, contents, cs1, gs1, cs2, gs2);
    let v1 = cs1.map_values(|c: CandidateMeta| cand_view(c));
    let v2 = cs2.map_values(|c: CandidateMeta| cand_view(c));
    assert(cs1.len() == v1.len() && cs2.len() == v2.len());
    assert forall|i: int| 0 <= i < cs1.len() implies cand_view(#[trigger] cs1[i]) == cand_view(cs2[i]) by {
        assert(v1[i] == v2[i]);
    }
    let it1 = items_of(cs1, gs1, files, contents);
    let it2 = items_of(cs2, gs2, files, contents);
    assert forall|i: int| 0 <= i < it1.len() implies it1[i] == it2[i] by {
        assert(cand_view(cs1[i]) == cand_view(cs2[i]));
        lemma_dup_of_same(gs1, gs2, cs1[i].path@);
    }
    assert(it1 =~= it2);
    let ds1 = p1.decisions@;
    let ds2 = p2.decisions@;
    let dv1 = ds1.map_values(|d: Decision| decision_view(d));
    let dv2 = ds2.map_values(|d: Decision| decision_view(d));
    assert(dv1 == dv2);
    assert(ds1.len() == dv1.len() && ds2.len() == dv2.len());
    assert(dv1.len() == it1.len()) by {
        lemma_select_run_len(crate::context::engine::start_state(request), it1);
    }
    assert forall|i: int| 0 <= i < ds1.len() implies decision_full_view(#[trigger] ds1[i]) == decision_full_view(ds2[i]) by {
        assert(dv1[i] == dv2[i]);
        assert(decision_data(ds1[i], cs1[i], gs1, files, contents));
        assert(decision_data(ds2[i], cs2[i], gs2, files, contents));
        assert(cand_view(cs1[i]) == cand_view(cs2[i]));
        lemma_dup_of_same(gs1, gs2, cs1[i].path@);
    }
    assert(ds1.map_values(|d: Decision| decision_full_view(d)) =~= ds2.map_values(|d: Decision| decision_full_view(d)));
    lemma_totals_same(ds1, ds2, cs1, cs2);
    lemma_before_same(cs1, cs2);
}

/// Optimisation cannot both succeed and fail on one input: once a plan
/// meets the contract, every ranking and grouping that the contract admits
/// fits the machine integers, so the error case cannot hold.
pub proof fn law_success_determined(
    cfg: OptimizerConfig,
    files: Seq<FileEntry>,
    ms: Seq<Module>,
    eps: Seq<EntryPoint>,
    graph: Option<&GraphSignals>,
    request: ContextRequest,
    contents: Seq<Option<String>>,
    p: OptimizedPlan,
    cs: Seq<CandidateMeta>,
    gs: Seq<DuplicateGroup>,
)
    requires
        plan_ok(p, cfg, files, ms, eps, graph, request, contents),
        ranked_ok(cs, rank_of(cfg, files, ms, eps, graph, request).2, request.min_relevance_millionths),
        groups_ok(cs, gs, cfg, request, files, contents),
    ensures
        counts_fit(cs, items_of(cs, gs, files, contents), request),
{
    reveal(plan_ok);
    let cs1 = p.candidates@;
    let gs1 = p.groups@;
    law_plan_ranking_deterministic(cfg, files, ms, eps, graph, request, cs1, cs);
    law_plan_groups_deterministic(cfg, files, ms, eps, graph, request, contents, cs1, gs1, cs, gs);
    let v1 = cs1.map_values(|c: CandidateMeta| cand_view(c));
    let v2 = cs.map_values(|c: CandidateMeta| cand_view(c));
    assert(cs1.len() == v1.len() && cs.len() == v2.len());
    assert forall|i: int| 0 <= i < cs1.len() implies cand_view(#[trigger] cs1[i]) == cand_view(cs[i]) by {
        assert(v1[i] == v2[i]);
    }
    let it1 = items_of(cs1, gs1, files, contents);
    let it2 = items_of(cs, gs, files, contents);
    assert forall|i: int| 0 <= i < it1.len() implies it1[i] == it2[i] by {
        assert(cand_view(cs1[i]) == cand_view(cs[i]));
        lemma_dup_of_same(gs1, gs, cs1[i].path@);
    }
    assert(it1 =~= it2);
    lemma_before_same(cs1, cs);
}

} // verus!
