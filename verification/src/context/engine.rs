//! The context optimiser's pipeline: rank the candidate files, collapse
//! near-duplicates among the top-ranked ones, then offer the rest to the
//! budget in rank order, with the accounting of what was kept and dropped.
//!
//! File contents are supplied by the caller, one entry per analysed file
//! (`None` when the file could not be read within the size bound).

use vstd::prelude::*;
use vstd::relations::sorted_by;
use crate::context::dedup::{DedupConfig, DuplicateGroup, DuplicateMember, dedup_ok, detect_near_duplicates};
use crate::context::models::DroppedFile;
use crate::context::optimizer::{
    CandidateMeta, GraphSignals, RankConfig, RankOutcome, SelectItem, Selection, best_score, cand_view,
    cands_sorted, dedup_limit, dedup_limit_spec, dropped_view, item_views, meets_pred, below_pred,
    opt_string_view, rank_candidates, rank_parts, select_run, select_within_budget, selection_view,
    total_tokens, law_selection_within_budget,
};
use crate::context::pruner::{PrunerView, within_budget};
use crate::context::selector::{QueryTokens, tokenize_spec};
use crate::context::tokens::{estimate_tokens, estimate_tokens_from_bytes, tokens_for};
use crate::order::{lex_le, views_of};
use crate::repo::import_extractor::DEFAULT_MAX_SOURCE_BYTES;
use crate::repo::models::{EntryPoint, FileEntry, Module};
use crate::text::{chars_of, push_chars, push_str_chars, str_eq, string_from_chars, to_owned_string};

verus! {

/// Tunable knobs for context optimisation.
#[derive(Debug, Clone, Copy)]
pub struct OptimizerConfig {
    /// Maximum source file size (bytes) whose content is read and optimised.
    pub max_source_bytes: u64,
    /// Whether near-duplicate detection is enabled.
    pub dedup_enabled: bool,
    /// Knobs for the near-duplicate pipeline.
    pub dedup_config: DedupConfig,
    /// Hard cap on how many top-ranked files are checked for duplicates.
    pub max_dedup_candidates: usize,
    /// Whether entry point / centrality / reachability boosts are applied.
    pub structural_boost: bool,
    /// Whether binary/media and generated files are excluded before scoring.
    pub content_gate_enabled: bool,
}

impl Default for OptimizerConfig {
    fn default() -> (r: Self)
        ensures
            r.max_source_bytes == DEFAULT_MAX_SOURCE_BYTES,
            r.dedup_enabled,
            r.dedup_config.shingle_size == 5,
            r.dedup_config.signature_count == 64,
            r.dedup_config.band_size == 4,
            r.dedup_config.max_shingles_per_file == 512,
            r.dedup_config.similarity_threshold_millionths == 800000,
            r.max_dedup_candidates == 4096,
            r.structural_boost,
            r.content_gate_enabled,
    {
        OptimizerConfig {
            max_source_bytes: DEFAULT_MAX_SOURCE_BYTES,
            dedup_enabled: true,
            dedup_config: DedupConfig::default(),
            max_dedup_candidates: 4096,
            structural_boost: true,
            content_gate_enabled: true,
        }
    }
}

/// What context is asked for.
#[derive(Debug, Clone)]
pub struct ContextRequest {
    /// The developer's request text.
    pub query: String,
    /// Token budget, if any.
    pub max_tokens: Option<usize>,
    /// File budget, if any.
    pub max_files: Option<usize>,
    /// Only files under one of these paths are considered (all when empty).
    pub include_paths: Vec<String>,
    /// Files under these paths are never considered.
    pub exclude_paths: Vec<String>,
    /// Minimum normalized relevance, in millionths of the best score.
    pub min_relevance_millionths: Option<u64>,
}

impl Default for ContextRequest {
    fn default() -> (r: Self)
        ensures
            r.query@ == Seq::<char>::empty(),
            r.max_tokens is None,
            r.max_files is None,
            r.include_paths@.len() == 0,
            r.exclude_paths@.len() == 0,
            r.min_relevance_millionths is None,
    {
        ContextRequest {
            query: String::new(),
            max_tokens: None,
            max_files: None,
            include_paths: Vec::new(),
            exclude_paths: Vec::new(),
            min_relevance_millionths: None,
        }
    }
}

/// Why the pipeline could not account for a request.
#[derive(Debug, Clone, Copy, PartialEq, Eq)]
pub enum OptimizeError {
    /// A token or byte total does not fit its machine integer.
    CountOverflow,
}

/// What happened to one ranked candidate.
#[derive(Debug, Clone)]
pub enum Decision {
    /// Selected, with its approximate tokens and its content when read.
    Kept { tokens: usize, content: Option<String> },
    /// Collapsed into the group of `representative`, sharing `shared` of
    /// `union` shingles with it.
    Duplicate { representative: String, shared: usize, union: usize },
    /// Dropped by the budget; the detail gives the numbers.
    OverBudget { detail: String },
}

/// A decision as text, as `selection_view` gives a budget decision.
pub open spec fn decision_view(d: Decision) -> Option<Option<Seq<char>>> {
    match d {
        Decision::Kept { .. } => None,
        Decision::Duplicate { .. } => Some(None),
        Decision::OverBudget { detail } => Some(Some(detail@)),
    }
}

/// Token accounting before and after optimisation.
#[derive(Debug, Clone, Copy, PartialEq, Eq)]
pub struct TokenSummary {
    /// Size-based token estimate of all candidates.
    pub tokens_before: usize,
    /// Tokens of the selected files.
    pub tokens_after: usize,
    /// The token budget, if any.
    pub budget: Option<usize>,
    /// Whether the selected tokens fit the token budget.
    pub within_budget: bool,
}

/// The outcome of optimisation.
#[derive(Debug)]
pub struct OptimizedPlan {
    /// Candidates in rank order.
    pub candidates: Vec<CandidateMeta>,
    /// The decision for each candidate, in the same order.
    pub decisions: Vec<Decision>,
    /// Files dropped by the content gate, in file order.
    pub gated: Vec<DroppedFile>,
    /// Candidates below the minimum relevance, in file order.
    pub below: Vec<CandidateMeta>,
    /// Files the inclusions/exclusions filters removed.
    /// Files left after the include and exclude filters.
    pub files_considered: usize,
    pub excluded: usize,
    /// The best score among all scored files (relevance is measured
    /// against it).
    pub best_score: u64,
    /// Near-duplicate groups, by representative path.
    pub groups: Vec<DuplicateGroup>,
    /// Token accounting before and after optimisation.
    pub tokens: TokenSummary,
    /// Bytes of all candidates.
    pub bytes_before: u64,
    /// Bytes of the selected files.
    pub bytes_after: u64,
    /// Bytes of the collapsed duplicates.
    pub bytes_saved: u64,
    /// Files collapsed as duplicates.
    pub files_collapsed: usize,
    /// Files dropped by the budget.
    pub files_over_budget: usize,
    /// Files selected.
    pub files_selected: usize,
    /// Notes on the query and on files whose content was not read.
    pub warnings: Vec<String>,
}

/// The content supplied for the first file with path `p`.
pub open spec fn content_at(files: Seq<FileEntry>, contents: Seq<Option<String>>, p: Seq<char>) -> Option<Seq<char>>
    decreases files.len(),
{
    if files.len() == 0 || contents.len() == 0 {
        None
    } else if files[0].path@ == p {
        opt_string_view(contents[0])
    } else {
        content_at(files.drop_first(), contents.drop_first(), p)
    }
}

/// Size-based token estimate, as `estimate_tokens_from_bytes` gives it.
pub open spec fn bytes_tokens(size: u64) -> nat {
    if size <= usize::MAX {
        tokens_for(size as int) as nat
    } else {
        tokens_for(usize::MAX as int) as nat
    }
}

/// Approximate tokens of a candidate: from its content when read, else
/// from its size.
pub open spec fn cand_tokens(content: Option<Seq<char>>, size: u64) -> nat {
    match content {
        Some(t) => tokens_for(t.len() as int) as nat,
        None => bytes_tokens(size),
    }
}

/// The size-based token estimates and the sizes of candidates, summed.
pub open spec fn before_totals(cs: Seq<CandidateMeta>) -> (nat, nat)
    decreases cs.len(),
{
    if cs.len() == 0 {
        (0, 0)
    } else {
        let p = before_totals(cs.drop_last());
        (p.0 + bytes_tokens(cs.last().size), p.1 + cs.last().size as nat)
    }
}

/// The (path, content) views of the candidates with content, in order.
pub open spec fn expected_entries(cs: Seq<CandidateMeta>, files: Seq<FileEntry>, contents: Seq<Option<String>>) -> Seq<(Seq<char>, Seq<char>)>
    decreases cs.len(),
{
    if cs.len() == 0 {
        Seq::empty()
    } else {
        let p = expected_entries(cs.drop_last(), files, contents);
        match content_at(files, contents, cs.last().path@) {
            Some(t) => p.push((cs.last().path@, t)),
            None => p,
        }
    }
}

/// The views of (path, content) entries.
pub open spec fn entry_views(e: Seq<(String, String)>) -> Seq<(Seq<char>, Seq<char>)> {
    e.map_values(|x: (String, String)| (x.0@, x.1@))
}

/// Whether groups are in representative order.
pub open spec fn groups_sorted(gs: Seq<DuplicateGroup>) -> bool {
    sorted_by(gs, |a: DuplicateGroup, b: DuplicateGroup| lex_le(a.representative@, b.representative@, false))
}

/// The (shared, union) counts of the last member with path `p`.
pub open spec fn member_in(ms: Seq<DuplicateMember>, p: Seq<char>) -> Option<(nat, nat)>
    decreases ms.len(),
{
    if ms.len() == 0 {
        None
    } else if ms.last().path@ == p {
        Some((ms.last().shared as nat, ms.last().union as nat))
    } else {
        member_in(ms.drop_last(), p)
    }
}

/// The representative and counts recorded for path `p`: those of the last
/// group, in order, listing it as a member.
pub open spec fn dup_of(gs: Seq<DuplicateGroup>, p: Seq<char>) -> Option<(Seq<char>, nat, nat)>
    decreases gs.len(),
{
    if gs.len() == 0 {
        None
    } else {
        match member_in(gs.last().members@, p) {
            Some(c) => Some((gs.last().representative@, c.0, c.1)),
            None => dup_of(gs.drop_last(), p),
        }
    }
}

/// The budget item of a candidate: near-duplicates carry no tokens.
pub open spec fn item_of(c: CandidateMeta, gs: Seq<DuplicateGroup>, files: Seq<FileEntry>, contents: Seq<Option<String>>) -> (bool, nat) {
    if dup_of(gs, c.path@) is Some {
        (true, 0)
    } else {
        (false, cand_tokens(content_at(files, contents, c.path@), c.size))
    }
}

/// The budget items of candidates.
pub open spec fn items_of(cs: Seq<CandidateMeta>, gs: Seq<DuplicateGroup>, files: Seq<FileEntry>, contents: Seq<Option<String>>) -> Seq<(bool, nat)> {
    Seq::new(cs.len(), |i: int| item_of(cs[i], gs, files, contents))
}

/// Whether a decision carries what the candidate's item and groups say.
pub open spec fn decision_data(d: Decision, c: CandidateMeta, gs: Seq<DuplicateGroup>, files: Seq<FileEntry>, contents: Seq<Option<String>>) -> bool {
    match d {
        Decision::Kept { tokens, content } => tokens == item_of(c, gs, files, contents).1 && opt_string_view(content)
            == content_at(files, contents, c.path@),
        Decision::Duplicate { representative, shared, union } => dup_of(gs, c.path@) == Some(
            (representative@, shared as nat, union as nat),
        ),
        Decision::OverBudget { .. } => true,
    }
}

/// Totals over decisions: (selected, collapsed, over budget, selected
/// bytes, collapsed bytes, selected tokens).
pub open spec fn decision_totals(ds: Seq<Decision>, cs: Seq<CandidateMeta>) -> (nat, nat, nat, nat, nat, nat)
    decreases ds.len(),
{
    if ds.len() == 0 || cs.len() < ds.len() {
        (0, 0, 0, 0, 0, 0)
    } else {
        let p = decision_totals(ds.drop_last(), cs);
        let size = cs[ds.len() - 1].size as nat;
        match ds.last() {
            Decision::Kept { tokens, .. } => (p.0 + 1, p.1, p.2, p.3 + size, p.4, p.5 + tokens as nat),
            Decision::Duplicate { .. } => (p.0, p.1 + 1, p.2, p.3, p.4 + size, p.5),
            Decision::OverBudget { .. } => (p.0, p.1, p.2 + 1, p.3, p.4, p.5),
        }
    }
}

/// The note recorded when the query yields no tokens.
pub open spec fn empty_query_note() -> Seq<char> {
    "query produced no tokens; selection uses structural signals only"@
}

/// The note recorded for a selected file whose content was not read.
pub open spec fn unread_note(p: Seq<char>) -> Seq<char> {
    "`"@ + p + "` content not read (too large or not UTF-8); token estimate uses file size"@
}

/// The notes for selected files whose content was not read, in order.
pub open spec fn unread_notes(ds: Seq<Decision>, cs: Seq<CandidateMeta>) -> Seq<Seq<char>>
    decreases ds.len(),
{
    if ds.len() == 0 || cs.len() < ds.len() {
        Seq::empty()
    } else {
        let p = unread_notes(ds.drop_last(), cs);
        match ds.last() {
            Decision::Kept { content: None, .. } => p.push(unread_note(cs[ds.len() - 1].path@)),
            _ => p,
        }
    }
}

/// The budget gate's starting state for a request.
pub open spec fn start_state(request: ContextRequest) -> PrunerView {
    PrunerView { max_files: request.max_files, max_tokens: request.max_tokens, files_used: 0, tokens_used: 0 }
}

/// Whether the counts of a plan fit their machine integers.
pub open spec fn counts_fit(cs: Seq<CandidateMeta>, items: Seq<(bool, nat)>, request: ContextRequest) -> bool {
    &&& before_totals(cs).0 <= usize::MAX
    &&& before_totals(cs).1 <= u64::MAX
    &&& (request.max_tokens is None ==> total_tokens(items) <= usize::MAX)
}


/// The ranking a request asks for: excluded count, gate drops and scored
/// candidates, in file order.
pub open spec fn rank_of(
    cfg: OptimizerConfig,
    files: Seq<FileEntry>,
    modules: Seq<Module>,
    eps: Seq<EntryPoint>,
    graph: Option<&GraphSignals>,
    request: ContextRequest,
) -> (nat, Seq<(Seq<char>, crate::context::models::DroppedReason, Seq<char>)>, Seq<crate::context::optimizer::CandView>) {
    rank_parts(
        files,
        modules,
        eps,
        graph,
        tokenize_spec(request.query@),
        cfg.structural_boost,
        cfg.content_gate_enabled,
        views_of(request.include_paths@),
        views_of(request.exclude_paths@),
    )
}

/// Whether `cs` are the scored candidates meeting the minimum relevance,
/// in rank order.
pub open spec fn ranked_ok(cs: Seq<CandidateMeta>, scored: Seq<crate::context::optimizer::CandView>, min_relevance: Option<u64>) -> bool {
    let best = best_score(scored);
    &&& cs.map_values(|c: CandidateMeta| cand_view(c)).to_multiset() == scored.filter(meets_pred(best, min_relevance)).to_multiset()
    &&& cands_sorted(cs.map_values(|c: CandidateMeta| cand_view(c)))
    &&& cs.map_values(|c: CandidateMeta| cand_view(c)) == crate::order::sort_spec(
        scored.filter(meets_pred(best, min_relevance)),
        crate::context::optimizer::cand_order(),
    )
}

/// Whether `gs` are the near-duplicate groups found among the first
/// candidates (as many as the dedup limit allows) whose content was read,
/// in representative order; none when detection is off or fewer than two
/// candidates are checked.
pub open spec fn groups_ok(
    cs: Seq<CandidateMeta>,
    gs: Seq<DuplicateGroup>,
    cfg: OptimizerConfig,
    request: ContextRequest,
    files: Seq<FileEntry>,
    contents: Seq<Option<String>>,
) -> bool {
    let lim = dedup_limit_spec(cfg.max_dedup_candidates, cs.len() as usize, request.max_files);
    if cfg.dedup_enabled && lim >= 2 {
        &&& groups_sorted(gs)
        &&& exists|e: Seq<(String, String)>|
            {
                &&& #[trigger] entry_views(e) == expected_entries(cs.take(lim), files, contents)
                &&& (e.len() >= 2 ==> exists|sh: Seq<Seq<u64>>, g: Seq<DuplicateGroup>|
                    #[trigger] dedup_ok(g, sh, e, cfg.dedup_config) && gs.to_multiset() == g.to_multiset()
                        && gs == crate::order::sort_spec(g, group_order()))
                &&& (e.len() < 2 ==> gs.len() == 0)
            }
    } else {
        gs.len() == 0
    }
}

/// Whether `p` is the plan optimisation owes for a request: the ranking,
/// gate drops and threshold split of `rank_of`, the near-duplicate groups,
/// the budget decisions of `select_run` and the totals and notes they give.
#[verifier::opaque]
pub open spec fn plan_ok(
    p: OptimizedPlan,
    cfg: OptimizerConfig,
    files: Seq<FileEntry>,
    modules: Seq<Module>,
    entry_points: Seq<EntryPoint>,
    graph: Option<&GraphSignals>,
    request: ContextRequest,
    contents: Seq<Option<String>>,
) -> bool {
    let parts = rank_of(cfg, files, modules, entry_points, graph, request);
    let best = best_score(parts.2);
    let mr = request.min_relevance_millionths;
    let cs = p.candidates@;
    let items = items_of(cs, p.groups@, files, contents);
    let run = select_run(start_state(request), items);
    let t = decision_totals(p.decisions@, cs);
    &&& p.excluded == parts.0
    &&& p.files_considered == parts.1.len() + parts.2.len()
    &&& p.files_considered + p.excluded == files.len()
    &&& p.best_score == best
    &&& p.gated@.map_values(|d: DroppedFile| dropped_view(d)) == parts.1
    &&& p.below@.map_values(|c: CandidateMeta| cand_view(c)) == parts.2.filter(below_pred(best, mr))
    &&& ranked_ok(cs, parts.2, mr)
    &&& groups_ok(cs, p.groups@, cfg, request, files, contents)
    &&& counts_fit(cs, items, request)
    &&& p.decisions@.map_values(|d: Decision| decision_view(d)) == run.1
    &&& forall|i: int| 0 <= i < cs.len() ==> decision_data(#[trigger] p.decisions@[i], cs[i], p.groups@, files, contents)
    &&& p.tokens.tokens_before == before_totals(cs).0
    &&& p.tokens.budget == request.max_tokens
    &&& p.bytes_before == before_totals(cs).1
    &&& p.files_selected == t.0 && t.0 == run.0.files_used
    &&& p.files_collapsed == t.1
    &&& p.files_over_budget == t.2
    &&& t.0 + t.1 + t.2 == cs.len()
    &&& p.bytes_after == t.3
    &&& p.bytes_saved == t.4
    &&& p.tokens.tokens_after == t.5 && t.5 == run.0.tokens_used
    &&& p.tokens.within_budget == (request.max_tokens matches Some(l) ==> p.tokens.tokens_after <= l)
    &&& p.tokens.within_budget
    &&& views_of(p.warnings@) == (if tokenize_spec(request.query@).len() == 0 {
        seq![empty_query_note()]
    } else {
        Seq::empty()
    }) + unread_notes(p.decisions@, cs)
}

/// The content supplied for the first file with path `p`.
fn content_for(files: &Vec<FileEntry>, contents: &Vec<Option<String>>, p: &str) -> (r: Option<String>)
    ensures
        opt_string_view(r) == content_at(files@, contents@, p@),
{
    let mut i: usize = 0;
    assert(files@.skip(0) =~= files@);
    assert(contents@.skip(0) =~= contents@);
    while i < files.len()
        invariant
            i <= files.len(),
            i <= contents.len(),
            content_at(files@, contents@, p@) == content_at(files@.skip(i as int), contents@.skip(i as int), p@),
        decreases files.len() - i,
    {
        if i == contents.len() {
            assert(contents@.skip(i as int).len() == 0);
            return None;
        }
        if str_eq(files[i].path.as_str(), p) {
            return match &contents[i] {
                Some(s) => Some(s.clone()),
                None => None,
            };
        }
        assert(files@.skip(i as int).drop_first() =~= files@.skip(i + 1));
        assert(contents@.skip(i as int).drop_first() =~= contents@.skip(i + 1));
        i = i + 1;
    }
    None
}

/// Size-based token estimates and sizes of candidates, summed.
fn sum_before(cs: &Vec<CandidateMeta>) -> (r: (u128, u128))
    ensures
        r.0 == before_totals(cs@).0,
        r.1 == before_totals(cs@).1,
{
    let mut t: u128 = 0;
    let mut b: u128 = 0;
    let mut i: usize = 0;
    while i < cs.len()
        invariant
            i <= cs.len(),
            t == before_totals(cs@.take(i as int)).0,
            b == before_totals(cs@.take(i as int)).1,
            t <= i * 0xffff_ffff_ffff_ffffu128,
            b <= i * 0xffff_ffff_ffff_ffffu128,
        decreases cs.len() - i,
    {
        assert(cs@.take(i + 1).drop_last() =~= cs@.take(i as int));
        let tk = estimate_tokens_from_bytes(cs[i].size);
        t = t + tk as u128;
        b = b + cs[i].size as u128;
        i = i + 1;
    }
    assert(cs@.take(cs@.len() as int) =~= cs@);
    (t, b)
}

/// The (path, content) entries of the candidates with content.
fn dedup_entries(cs: &Vec<CandidateMeta>, limit: usize, files: &Vec<FileEntry>, contents: &Vec<Option<String>>) -> (r: Vec<(String, String)>)
    requires
        limit <= cs.len(),
    ensures
        entry_views(r@) == expected_entries(cs@.take(limit as int), files@, contents@),
{
    let mut out: Vec<(String, String)> = Vec::new();
    let mut i: usize = 0;
    while i < limit
        invariant
            i <= limit,
            limit <= cs.len(),
            entry_views(out@) == expected_entries(cs@.take(i as int), files@, contents@),
        decreases limit - i,
    {
        assert(cs@.take(i + 1).drop_last() =~= cs@.take(i as int));
        assert(cs@.take(i + 1).last() == cs@[i as int]);
        let ghost old_out = out@;
        match content_for(files, contents, cs[i].path.as_str()) {
            Some(t) => {
                out.push((cs[i].path.clone(), t));
                assert(entry_views(out@) =~= entry_views(old_out).push((cs@[i as int].path@, out@.last().1@)));
            },
            None => {},
        }
        i = i + 1;
    }
    out
}

/// Groups ordered by representative.
pub open spec fn group_order() -> spec_fn(DuplicateGroup, DuplicateGroup) -> bool {
    |a: DuplicateGroup, b: DuplicateGroup| lex_le(a.representative@, b.representative@, false)
}

/// Groups in representative order.
fn sort_groups(gs: Vec<DuplicateGroup>) -> (r: Vec<DuplicateGroup>)
    ensures
        r@.to_multiset() == gs@.to_multiset(),
        groups_sorted(r@),
        r@ == crate::order::sort_spec(gs@, group_order()),
{
    let before = |a: &DuplicateGroup, b: &DuplicateGroup| -> (o: bool)
        ensures
            o == lex_le(a.representative@, b.representative@, false),
        { crate::order::compare_str(a.representative.as_str(), b.representative.as_str(), false) <= 0 };
    proof {
        crate::order::lemma_key_preorder(|g: DuplicateGroup| g.representative@, false);
        assert((|a: DuplicateGroup, b: DuplicateGroup| lex_le((|g: DuplicateGroup| g.representative@)(a), (|g: DuplicateGroup| g.representative@)(b), false)) =~= (|a: DuplicateGroup, b: DuplicateGroup| lex_le(a.representative@, b.representative@, false)));
    }
    assert(group_order() =~= (|a: DuplicateGroup, b: DuplicateGroup| lex_le(a.representative@, b.representative@, false)));
    let r = crate::order::stable_sort(gs, &before, Ghost(group_order()));
    assert(groups_sorted(r@)) by {
        assert forall|i: int, j: int| 0 <= i < j < r@.len() implies #[trigger] lex_le(r@[i].representative@, r@[j].representative@, false) by {
            assert(group_order()(r@[i], r@[j]));
        }
    }
    r
}

/// The counts of the last member with path `p`.
fn member_lookup(ms: &Vec<DuplicateMember>, p: &str) -> (r: Option<(usize, usize)>)
    ensures
        match r {
            Some(c) => member_in(ms@, p@) == Some((c.0 as nat, c.1 as nat)),
            None => member_in(ms@, p@) is None,
        },
{
    let mut i: usize = ms.len();
    assert(ms@.take(ms@.len() as int) =~= ms@);
    while i > 0
        invariant
            i <= ms.len(),
            member_in(ms@, p@) == member_in(ms@.take(i as int), p@),
        decreases i,
    {
        assert(ms@.take(i as int).drop_last() =~= ms@.take(i - 1));
        assert(ms@.take(i as int).last() == ms@[i - 1]);
        if str_eq(ms[i - 1].path.as_str(), p) {
            return Some((ms[i - 1].shared, ms[i - 1].union));
        }
        i = i - 1;
    }
    None
}

/// The representative and counts recorded for path `p`.
fn dup_lookup(gs: &Vec<DuplicateGroup>, p: &str) -> (r: Option<(String, usize, usize)>)
    ensures
        match r {
            Some(d) => dup_of(gs@, p@) == Some((d.0@, d.1 as nat, d.2 as nat)),
            None => dup_of(gs@, p@) is None,
        },
{
    let mut i: usize = gs.len();
    assert(gs@.take(gs@.len() as int) =~= gs@);
    while i > 0
        invariant
            i <= gs.len(),
            dup_of(gs@, p@) == dup_of(gs@.take(i as int), p@),
        decreases i,
    {
        assert(gs@.take(i as int).drop_last() =~= gs@.take(i - 1));
        assert(gs@.take(i as int).last() == gs@[i - 1]);
        match member_lookup(&gs[i - 1].members, p) {
            Some(c) => {
                return Some((gs[i - 1].representative.clone(), c.0, c.1));
            },
            None => {},
        }
        i = i - 1;
    }
    None
}

/// One candidate's budget item, its content and its duplicate record.
struct Prepared {
    item: SelectItem,
    content: Option<String>,
    dup: Option<(String, usize, usize)>,
}

/// The budget items of the candidates, with their contents and duplicate
/// records.
fn prepare(cs: &Vec<CandidateMeta>, gs: &Vec<DuplicateGroup>, files: &Vec<FileEntry>, contents: &Vec<Option<String>>) -> (r: Vec<Prepared>)
    ensures
        r@.len() == cs@.len(),
        forall|i: int| 0 <= i < r@.len() ==> {
            let p = #[trigger] r@[i];
            &&& (p.item.duplicate, p.item.tokens as nat) == item_of(cs@[i], gs@, files@, contents@)
            &&& p.item.path@ == cs@[i].path@
            &&& opt_string_view(p.content) == content_at(files@, contents@, cs@[i].path@)
            &&& match p.dup {
                Some(d) => dup_of(gs@, cs@[i].path@) == Some((d.0@, d.1 as nat, d.2 as nat)),
                None => dup_of(gs@, cs@[i].path@) is None,
            }
        },
{
    let mut out: Vec<Prepared> = Vec::new();
    let mut i: usize = 0;
    while i < cs.len()
        invariant
            i <= cs.len(),
            out@.len() == i,
            forall|k: int| 0 <= k < i ==> {
                let p = #[trigger] out@[k];
                &&& (p.item.duplicate, p.item.tokens as nat) == item_of(cs@[k], gs@, files@, contents@)
                &&& p.item.path@ == cs@[k].path@
                &&& opt_string_view(p.content) == content_at(files@, contents@, cs@[k].path@)
                &&& match p.dup {
                    Some(d) => dup_of(gs@, cs@[k].path@) == Some((d.0@, d.1 as nat, d.2 as nat)),
                    None => dup_of(gs@, cs@[k].path@) is None,
                }
            },
        decreases cs.len() - i,
    {
        let c = &cs[i];
        let dup = dup_lookup(gs, c.path.as_str());
        let content = content_for(files, contents, c.path.as_str());
        let tokens: usize = match &dup {
            Some(_) => 0,
            None => match &content {
                Some(t) => estimate_tokens(t.as_str()),
                None => estimate_tokens_from_bytes(c.size),
            },
        };
        let item = SelectItem { path: c.path.clone(), tokens, duplicate: dup.is_some() };
        out.push(Prepared { item, content, dup });
        i = i + 1;
    }
    out
}

/// The totals of the (duplicate, tokens) items, or `None` past `usize::MAX`.
fn items_total(ps: &Vec<Prepared>, Ghost(items): Ghost<Seq<(bool, nat)>>) -> (r: Option<usize>)
    requires
        items.len() == ps@.len(),
        forall|i: int| 0 <= i < ps@.len() ==> (#[trigger] ps@[i]).item.tokens == items[i].1,
    ensures
        match r {
            Some(t) => t == total_tokens(items),
            None => total_tokens(items) > usize::MAX,
        },
{
    let mut t: usize = 0;
    let mut i: usize = 0;
    while i < ps.len()
        invariant
            i <= ps.len(),
            items.len() == ps@.len(),
            forall|k: int| 0 <= k < ps@.len() ==> (#[trigger] ps@[k]).item.tokens == items[k].1,
            t == total_tokens(items.take(i as int)),
        decreases ps.len() - i,
    {
        assert(items.take(i + 1).drop_last() =~= items.take(i as int));
        proof {
            lemma_total_prefix(items, i + 1);
        }
        match t.checked_add(ps[i].item.tokens) {
            Some(v) => {
                t = v;
            },
            None => {
                return None;
            },
        }
        i = i + 1;
    }
    assert(items.take(items.len() as int) =~= items);
    Some(t)
}

proof fn lemma_total_prefix(items: Seq<(bool, nat)>, i: int)
    requires
        0 <= i <= items.len(),
    ensures
        total_tokens(items.take(i)) <= total_tokens(items),
    decreases items.len() - i,
{
    if i < items.len() {
        lemma_total_prefix(items, i + 1);
        assert(items.take(i + 1).drop_last() =~= items.take(i));
    } else {
        assert(items.take(i) =~= items);
    }
}

proof fn lemma_run_prefix(st: PrunerView, items: Seq<(bool, nat)>, i: int)
    requires
        0 <= i <= items.len(),
    ensures
        select_run(st, items).1.take(i) == select_run(st, items.take(i)).1,
    decreases items.len(),
{
    crate::context::optimizer::lemma_run_bounds(st, items);
    crate::context::optimizer::lemma_run_bounds(st, items.take(i));
    if i == items.len() {
        assert(items.take(i) =~= items);
        assert(select_run(st, items).1.take(i) =~= select_run(st, items).1);
    } else {
        lemma_run_prefix(st, items.drop_last(), i);
        crate::context::optimizer::lemma_run_bounds(st, items.drop_last());
        assert(items.drop_last().take(i) =~= items.take(i));
        assert(select_run(st, items).1.take(i) =~= select_run(st, items.drop_last()).1.take(i));
    }
}

proof fn lemma_before_prefix(cs: Seq<CandidateMeta>, i: int)
    requires
        0 <= i <= cs.len(),
    ensures
        before_totals(cs.take(i)).1 <= before_totals(cs).1,
    decreases cs.len() - i,
{
    if i < cs.len() {
        lemma_before_prefix(cs, i + 1);
        assert(cs.take(i + 1).drop_last() =~= cs.take(i));
    } else {
        assert(cs.take(i) =~= cs);
    }
}

/// The note for a selected file whose content was not read.
fn unread_note_exec(p: &str) -> (r: String)
    ensures
        r@ == unread_note(p@),
{
    let mut v: Vec<char> = Vec::new();
    push_str_chars(&mut v, "`");
    let pc = chars_of(p);
    push_chars(&mut v, pc.as_slice());
    push_str_chars(&mut v, "` content not read (too large or not UTF-8); token estimate uses file size");
    proof {
        reveal_strlit("`");
        reveal_strlit("` content not read (too large or not UTF-8); token estimate uses file size");
    }
    string_from_chars(&v)
}

/// The context optimiser.
#[derive(Debug, Clone)]
pub struct ContextOptimizer {
    config: OptimizerConfig,
}

impl ContextOptimizer {
    /// An optimiser with a custom configuration.
    pub fn new(config: OptimizerConfig) -> (r: Self)
        ensures
            r.config_view() == config,
    {
        ContextOptimizer { config }
    }

    /// An optimiser with the default configuration.
    pub fn with_defaults() -> (r: Self)
        ensures
            r.config_view().max_source_bytes == DEFAULT_MAX_SOURCE_BYTES,
            r.config_view().dedup_enabled,
            r.config_view().max_dedup_candidates == 4096,
            r.config_view().structural_boost,
            r.config_view().content_gate_enabled,
            r.config_view().dedup_config.shingle_size == 5,
            r.config_view().dedup_config.signature_count == 64,
            r.config_view().dedup_config.band_size == 4,
            r.config_view().dedup_config.max_shingles_per_file == 512,
            r.config_view().dedup_config.similarity_threshold_millionths == 800000,
    {
        ContextOptimizer { config: OptimizerConfig::default() }
    }

    /// Optimises the context for `request` over the analysed files (their
    /// contents given one per file, in file order): ranks the candidates,
    /// collapses near-duplicates among the top-ranked ones whose content was
    /// read, then offers the rest to the budget in rank order. Fails only
    /// when a token or byte total does not fit its machine integer.
    pub fn optimize(
        &self,
        files: &Vec<FileEntry>,
        modules: &Vec<Module>,
        entry_points: &Vec<EntryPoint>,
        graph: Option<&GraphSignals>,
        request: &ContextRequest,
        contents: &Vec<Option<String>>,
    ) -> (r: Result<OptimizedPlan, OptimizeError>)
        requires
            15 * tokenize_spec(request.query@).len() + 7 <= u64::MAX,
            self.config_view().dedup_config.shingle_size > 0,
            self.config_view().dedup_config.max_shingles_per_file > 0,
            self.config_view().dedup_config.max_shingles_per_file <= usize::MAX / 2,
            self.config_view().dedup_config.band_size > 0,
        ensures
            ({
                let cfg = self.config_view();
                let parts = rank_of(cfg, files@, modules@, entry_points@, graph, *request);
                let best = best_score(parts.2);
                let mr = request.min_relevance_millionths;
                match r {
                    Ok(p) => plan_ok(p, cfg, files@, modules@, entry_points@, graph, *request, contents@),
                    Err(_) => exists|cs: Seq<CandidateMeta>, gs: Seq<DuplicateGroup>|
                        {
                            &&& #[trigger] ranked_ok(cs, parts.2, mr)
                            &&& #[trigger] groups_ok(cs, gs, cfg, *request, files@, contents@)
                            &&& !counts_fit(cs, items_of(cs, gs, files@, contents@), *request)
                        },
                }
            }),
    {
        let cfg = self.config;
        let query = QueryTokens::new(request.query.as_str());
        let mut warnings: Vec<String> = Vec::new();
        if query.is_empty() {
            warnings.push(to_owned_string("query produced no tokens; selection uses structural signals only"));
            proof {
                reveal_strlit("query produced no tokens; selection uses structural signals only");
            }
        }
        let ghost head = views_of(warnings@);
        let rank = rank_candidates(
            RankConfig { structural_boost: cfg.structural_boost, content_gate_enabled: cfg.content_gate_enabled },
            files,
            modules,
            entry_points,
            graph,
            &query,
            &request.include_paths,
            &request.exclude_paths,
            request.min_relevance_millionths,
        );
        let RankOutcome { candidates: cs, gated, below, excluded, best } = rank;
        let (tb, bb) = sum_before(&cs);
        let limit = dedup_limit(cfg.max_dedup_candidates, cs.len(), request.max_files);
        let ghost mut e_w: Seq<(String, String)> = Seq::empty();
        let ghost mut g_w: Seq<DuplicateGroup> = Seq::empty();
        let ghost mut sh_w: Seq<Seq<u64>> = Seq::empty();
        let groups = if cfg.dedup_enabled && limit >= 2 {
            let entries = dedup_entries(&cs, limit, files, contents);
            let g = detect_near_duplicates(&entries, &cfg.dedup_config);
            proof {
                e_w = entries@;
                g_w = g@;
                if entries@.len() >= 2 {
                    sh_w = choose|sh: Seq<Seq<u64>>| dedup_ok(g@, sh, entries@, cfg.dedup_config);
                }
            }
            sort_groups(g)
        } else {
            Vec::new()
        };
        proof {
            let lim = dedup_limit_spec(cfg.max_dedup_candidates, cs@.len() as usize, request.max_files);
            assert(lim == limit);
            if cfg.dedup_enabled && limit >= 2 {
                assert(entry_views(e_w) == expected_entries(cs@.take(lim), files@, contents@));
                assert(e_w.len() >= 2 ==> dedup_ok(g_w, sh_w, e_w, cfg.dedup_config));
                assert(e_w.len() < 2 ==> g_w.len() == 0);
                assert(groups@.to_multiset() == g_w.to_multiset());
                assert(groups@ == crate::order::sort_spec(g_w, group_order()));
                assert(e_w.len() < 2 ==> groups@.len() == 0) by {
                    if e_w.len() < 2 {
                        groups@.to_multiset_ensures();
                        g_w.to_multiset_ensures();
                        assert(groups@.to_multiset().len() == 0);
                    }
                }
                assert(groups_sorted(groups@));
            }
            assert(groups_ok(cs@, groups@, cfg, *request, files@, contents@));
        }
        let prepared = prepare(&cs, &groups, files, contents);
        let ghost items = items_of(cs@, groups@, files@, contents@);
        assert(items.len() == prepared@.len());
        proof {
            assert(query@ == tokenize_spec(request.query@));
            assert(ranked_ok(cs@, rank_of(cfg, files@, modules@, entry_points@, graph, *request).2, request.min_relevance_millionths));
        }
        if tb > usize::MAX as u128 || bb > u64::MAX as u128 {
            assert(!counts_fit(cs@, items, *request));
            return Err(OptimizeError::CountOverflow);
        }
        if request.max_tokens.is_none() {
            match items_total(&prepared, Ghost(items)) {
                Some(_) => {},
                None => {
                    assert(!counts_fit(cs@, items, *request));
                    return Err(OptimizeError::CountOverflow);
                },
            }
        }
        let mut sel_items: Vec<SelectItem> = Vec::new();
        let mut k: usize = 0;
        while k < prepared.len()
            invariant
                k <= prepared.len(),
                items.len() == prepared@.len(),
                items == items_of(cs@, groups@, files@, contents@),
                prepared@.len() == cs@.len(),
                forall|i: int| 0 <= i < prepared@.len() ==> (#[trigger] prepared@[i]).item.duplicate == items[i].0
                    && prepared@[i].item.tokens == items[i].1,
                item_views(sel_items@) == items.take(k as int),
            decreases prepared.len() - k,
        {
            let it = &prepared[k].item;
            let ghost old_v = item_views(sel_items@);
            assert(prepared@[k as int].item.duplicate == items[k as int].0);
            sel_items.push(SelectItem { path: it.path.clone(), tokens: it.tokens, duplicate: it.duplicate });
            assert(item_views(sel_items@) =~= old_v.push(items[k as int]));
            assert(items.take(k + 1) =~= items.take(k as int).push(items[k as int]));
            k = k + 1;
        }
        assert(items.take(items.len() as int) =~= items);
        let sel = select_within_budget(&sel_items, request.max_files, request.max_tokens);
        let ghost init = start_state(*request);
        let ghost run = select_run(init, items);
        proof {
            crate::context::optimizer::lemma_run_bounds(init, items);
        }
        let mut decisions: Vec<Decision> = Vec::new();
        let mut files_selected: usize = 0;
        let mut files_collapsed: usize = 0;
        let mut files_over: usize = 0;
        let mut bytes_after: u64 = 0;
        let mut bytes_saved: u64 = 0;
        let mut tokens_after: usize = 0;
        let mut i: usize = 0;
        assert(items.take(0) =~= Seq::<(bool, nat)>::empty());
        assert(cs@.take(0) =~= Seq::<CandidateMeta>::empty());
        assert(decisions@.map_values(|d: Decision| decision_view(d)) =~= Seq::<Option<Option<Seq<char>>>>::empty());
        while i < cs.len()
            invariant
                i <= cs.len(),
                prepared@.len() == cs@.len(),
                items == items_of(cs@, groups@, files@, contents@),
                items.len() == cs@.len(),
                init == start_state(*request),
                run == select_run(init, items),
                sel@.map_values(|s: Selection| selection_view(s)) == run.1,
                run.1.len() == items.len(),
                request.max_tokens is None ==> total_tokens(items) <= usize::MAX,
                before_totals(cs@).1 <= u64::MAX,
                forall|q: int| 0 <= q < prepared@.len() ==> {
                    let p = #[trigger] prepared@[q];
                    &&& (p.item.duplicate, p.item.tokens as nat) == items[q]
                    &&& opt_string_view(p.content) == content_at(files@, contents@, cs@[q].path@)
                    &&& match p.dup {
                        Some(d) => dup_of(groups@, cs@[q].path@) == Some((d.0@, d.1 as nat, d.2 as nat)),
                        None => dup_of(groups@, cs@[q].path@) is None,
                    }
                },
                decisions@.len() == i,
                decisions@.map_values(|d: Decision| decision_view(d)) == select_run(init, items.take(i as int)).1,
                forall|q: int| 0 <= q < i ==> decision_data(#[trigger] decisions@[q], cs@[q], groups@, files@, contents@),
                ({
                    let t = decision_totals(decisions@, cs@);
                    let st = select_run(init, items.take(i as int)).0;
                    &&& files_selected == t.0 && t.0 == st.files_used
                    &&& files_collapsed == t.1
                    &&& files_over == t.2
                    &&& bytes_after == t.3
                    &&& bytes_saved == t.4
                    &&& tokens_after == t.5 && t.5 == st.tokens_used
                    &&& t.3 + t.4 <= before_totals(cs@.take(i as int)).1
                    &&& t.0 + t.1 + t.2 == i
                }),
                views_of(warnings@) == head + unread_notes(decisions@, cs@),
            decreases cs.len() - i,
        {
            proof {
                lemma_run_prefix(init, items, i + 1);
                assert(items.take(i + 1).drop_last() =~= items.take(i as int));
                assert(items.take(i + 1).last() == items[i as int]);
                assert(cs@.take(i + 1).drop_last() =~= cs@.take(i as int));
                crate::context::optimizer::lemma_run_bounds(init, items.take(i as int));
                crate::context::optimizer::lemma_run_bounds(init, items.take(i + 1));
                law_selection_within_budget(items.take(i + 1), request.max_files, request.max_tokens);
                lemma_total_prefix(items, i + 1);
                lemma_before_prefix(cs@, i + 1);
                assert(run.1[i as int] == select_run(init, items.take(i + 1)).1.last());
            }
            let ghost old_d = decisions@;
            let ghost st = select_run(init, items.take(i as int)).0;
            let size = cs[i].size;
            match &sel[i] {
                Selection::Kept => {
                    assert(selection_view(sel@[i as int]) == run.1[i as int]);
                    let p = &prepared[i];
                    let content = match &p.content {
                        Some(t) => Some(t.clone()),
                        None => None,
                    };
                    let tokens = p.item.tokens;
                    let unread = content.is_none();
                    let d = Decision::Kept { tokens, content };
                    decisions.push(d);
                    files_selected = files_selected + 1;
                    bytes_after = bytes_after + size;
                    tokens_after = tokens_after + tokens;
                    if unread {
                        let ghost old_w = views_of(warnings@);
                        let note = unread_note_exec(cs[i].path.as_str());
                        warnings.push(note);
                        assert(views_of(warnings@) =~= old_w.push(note@));
                    }
                },
                Selection::Duplicate => {
                    assert(selection_view(sel@[i as int]) == run.1[i as int]);
                    let p = &prepared[i];
                    let (representative, shared, union) = match &p.dup {
                        Some(x) => (x.0.clone(), x.1, x.2),
                        None => {
                            assert(false);
                            (String::new(), 0, 0)
                        },
                    };
                    decisions.push(Decision::Duplicate { representative, shared, union });
                    files_collapsed = files_collapsed + 1;
                    bytes_saved = bytes_saved + size;
                },
                Selection::OverBudget { detail } => {
                    assert(selection_view(sel@[i as int]) == run.1[i as int]);
                    decisions.push(Decision::OverBudget { detail: detail.clone() });
                    files_over = files_over + 1;
                },
            }
            proof {
                assert(decisions@.drop_last() =~= old_d);
                assert(decisions@.map_values(|d: Decision| decision_view(d)) =~= old_d.map_values(|d: Decision| decision_view(d)).push(
                    decision_view(decisions@.last()),
                ));
            }
            i = i + 1;
        }
        proof {
            assert(items.take(items.len() as int) =~= items);
            assert(cs@.take(cs@.len() as int) =~= cs@);
            law_selection_within_budget(items, request.max_files, request.max_tokens);
        }
        let fits = match request.max_tokens {
            Some(l) => tokens_after <= l,
            None => true,
        };
        proof {
            crate::context::optimizer::lemma_rank_parts_count(
                files@,
                modules@,
                entry_points@,
                graph,
                tokenize_spec(request.query@),
                cfg.structural_boost,
                cfg.content_gate_enabled,
                views_of(request.include_paths@),
                views_of(request.exclude_paths@),
            );
        }
        let files_considered = files.len() - excluded;
        let plan = OptimizedPlan {
            files_considered,
            candidates: cs,
            decisions,
            gated,
            below,
            excluded,
            best_score: best,
            groups,
            tokens: TokenSummary { tokens_before: tb as usize, tokens_after, budget: request.max_tokens, within_budget: fits },
            bytes_before: bb as u64,
            bytes_after,
            bytes_saved,
            files_collapsed,
            files_over_budget: files_over,
            files_selected,
            warnings,
        };
        proof {
            let ghost parts = rank_of(cfg, files@, modules@, entry_points@, graph, *request);
            let ghost bst = best_score(parts.2);
            let ghost mr = request.min_relevance_millionths;
            let ghost pcs = plan.candidates@;
            let ghost pitems = items_of(pcs, plan.groups@, files@, contents@);
            let ghost prun = select_run(start_state(*request), pitems);
            let ghost pt = decision_totals(plan.decisions@, pcs);
            assert(plan.excluded == parts.0);
            assert(plan.files_considered == parts.1.len() + parts.2.len());
            assert(plan.best_score == bst);
            assert(plan.gated@.map_values(|d: DroppedFile| dropped_view(d)) == parts.1);
            assert(plan.below@.map_values(|c: CandidateMeta| cand_view(c)) == parts.2.filter(below_pred(bst, mr)));
            assert(ranked_ok(pcs, parts.2, mr));
            assert(groups_ok(pcs, plan.groups@, cfg, *request, files@, contents@));
            assert(counts_fit(pcs, pitems, *request));
            assert(plan.decisions@.map_values(|d: Decision| decision_view(d)) == prun.1);
            assert(forall|i: int| 0 <= i < pcs.len() ==> decision_data(#[trigger] plan.decisions@[i], pcs[i], plan.groups@, files@, contents@));
            assert(plan.files_selected == pt.0 && pt.0 == prun.0.files_used);
            assert(plan.tokens.tokens_after == pt.5 && pt.5 == prun.0.tokens_used);
            assert(plan.tokens.tokens_before == before_totals(pcs).0);
            assert(plan.tokens.budget == request.max_tokens);
            assert(plan.bytes_before == before_totals(pcs).1);
            assert(plan.files_collapsed == pt.1);
            assert(plan.files_over_budget == pt.2);
            assert(pt.0 + pt.1 + pt.2 == pcs.len());
            assert(plan.bytes_after == pt.3);
            assert(plan.bytes_saved == pt.4);
            assert(plan.tokens.within_budget == (request.max_tokens matches Some(l) ==> plan.tokens.tokens_after <= l));
            assert(plan.tokens.within_budget);
            assert(views_of(plan.warnings@) == (if tokenize_spec(request.query@).len() == 0 {
                seq![empty_query_note()]
            } else {
                Seq::empty()
            }) + unread_notes(plan.decisions@, pcs));
            reveal(plan_ok);
            assert(plan_ok(plan, cfg, files@, modules@, entry_points@, graph, *request, contents@));
            assert(cfg == self.config_view());
        }
        Ok(plan)
    }

    /// The effective configuration.
    pub closed spec fn config_view(&self) -> OptimizerConfig {
        self.config
    }

    /// The effective configuration.
    pub fn config(&self) -> (r: &OptimizerConfig)
        ensures
            *r == self.config_view(),
    {
        &self.config
    }
}

} // verus!
