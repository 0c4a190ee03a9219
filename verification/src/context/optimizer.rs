//! Candidate ranking and budget selection of the context optimiser:
//! inclusions/exclusions filters, the content gate, relevance scoring in half
//! points, the minimum-relevance cut and the order of candidates; then the
//! pass that drops near-duplicates and enforces the budget.

use vstd::prelude::*;
use vstd::relations::sorted_by;
use crate::context::gate::{class_of, classify, ContentClass};
use crate::context::models::{DroppedFile, DroppedReason};
use crate::context::pruner::{PruneCandidate, PruneOutcome, Pruner, PrunerView, within_budget, files_full, tokens_exceeded, files_budget_detail, tokens_budget_detail};
use crate::context::selector::{FileSignals, QueryTokens, SignalsView, score, score_of, score_spec, signals_view, opt_view};
use crate::context::tokens::{estimate_tokens, estimate_tokens_from_bytes, tokens_for};
use crate::order::{compare_str, lex_le, lex_lt, stable_sort, views_of};
use crate::repo::language::language_name;
use crate::repo::models::{EntryPoint, FileEntry, Module};
use crate::graph::files::{entry_paths, language_view};
use crate::text::{chars_of, push_chars, starts_with, string_from_chars, trim, trim_chars};

verus! {

/// `s` without every leading `./`.
pub open spec fn strip_dot_slash(s: Seq<char>) -> Seq<char>
    decreases s.len(),
{
    if s.len() >= 2 && s[0] == '.' && s[1] == '/' {
        strip_dot_slash(s.subrange(2, s.len() as int))
    } else {
        s
    }
}

/// `s` without every trailing `/`.
pub open spec fn strip_trailing_slash(s: Seq<char>) -> Seq<char>
    decreases s.len(),
{
    if s.len() > 0 && s.last() == '/' {
        strip_trailing_slash(s.drop_last())
    } else {
        s
    }
}

/// A filter pattern trimmed, without leading `./` and trailing `/`.
pub open spec fn normalize_pattern(p: Seq<char>) -> Seq<char> {
    strip_trailing_slash(strip_dot_slash(trim(p)))
}

/// Whether `path` falls under a filter pattern: the normalized pattern is
/// empty, equals the path, or is a directory prefix of it.
pub open spec fn path_matches_spec(path: Seq<char>, pattern: Seq<char>) -> bool {
    let p = normalize_pattern(pattern);
    p.len() == 0 || path == p || starts_with(path, p.push('/'))
}

/// Whether some pattern matches `path`.
pub open spec fn any_matches(path: Seq<char>, patterns: Seq<Seq<char>>) -> bool {
    exists|i: int| 0 <= i < patterns.len() && path_matches_spec(path, #[trigger] patterns[i])
}

/// Whether `path` passes the filters: no exclusions pattern matches, and some
/// inclusions pattern matches when there are any.
pub open spec fn passes_filters(path: Seq<char>, inclusions: Seq<Seq<char>>, exclusions: Seq<Seq<char>>) -> bool {
    !any_matches(path, exclusions) && (inclusions.len() == 0 || any_matches(path, inclusions))
}

/// Normalizes a filter pattern.
fn normalize_pattern_exec(p: &str) -> (r: Vec<char>)
    ensures
        r@ == normalize_pattern(p@),
{
    let pc = chars_of(p);
    let t = trim_chars(pc.as_slice());
    let mut a: usize = 0;
    assert(t@.subrange(0, t@.len() as int) =~= t@);
    while t.len() - a >= 2 && t[a] == '.' && t[a + 1] == '/'
        invariant
            a <= t.len(),
            strip_dot_slash(t@) == strip_dot_slash(t@.subrange(a as int, t@.len() as int)),
        decreases t.len() - a,
    {
        let ghost s = t@.subrange(a as int, t@.len() as int);
        assert(s[0] == '.' && s[1] == '/');
        assert(s.subrange(2, s.len() as int) =~= t@.subrange(a + 2, t@.len() as int));
        a = a + 2;
    }
    let ghost s = t@.subrange(a as int, t@.len() as int);
    assert(strip_dot_slash(s) == s) by {
        if s.len() >= 2 {
            assert(s[0] == t@[a as int]);
            assert(s[1] == t@[a + 1]);
        }
    }
    let mut b: usize = t.len();
    while b > a && t[b - 1] == '/'
        invariant
            a <= b <= t.len(),
            strip_trailing_slash(s) == strip_trailing_slash(t@.subrange(a as int, b as int)),
        decreases b,
    {
        assert(t@.subrange(a as int, b as int).drop_last() =~= t@.subrange(a as int, b - 1));
        b = b - 1;
    }
    crate::paths::slice_chars(t.as_slice(), a, b)
}

/// Whether `path` falls under a filter pattern.
pub fn path_matches(path: &str, pattern: &str) -> (r: bool)
    ensures
        r == path_matches_spec(path@, pattern@),
{
    let p = normalize_pattern_exec(pattern);
    if p.len() == 0 {
        return true;
    }
    let pc = chars_of(path);
    if crate::text::chars_eq(pc.as_slice(), p.as_slice()) {
        return true;
    }
    let mut q: Vec<char> = Vec::new();
    push_chars(&mut q, p.as_slice());
    q.push('/');
    assert(q@ =~= p@.push('/'));
    crate::text::chars_starts_with(pc.as_slice(), q.as_slice())
}

fn any_pattern_matches(path: &str, patterns: &Vec<String>) -> (r: bool)
    ensures
        r == any_matches(path@, views_of(patterns@)),
{
    let mut i: usize = 0;
    while i < patterns.len()
        invariant
            i <= patterns.len(),
            forall|k: int| 0 <= k < i ==> !path_matches_spec(path@, #[trigger] views_of(patterns@)[k]),
        decreases patterns.len() - i,
    {
        if path_matches(path, patterns[i].as_str()) {
            assert(path_matches_spec(path@, views_of(patterns@)[i as int]));
            return true;
        }
        i = i + 1;
    }
    false
}

/// Applies inclusions/exclusions filters to a candidate path: a pattern matches
/// when it equals the path or is a directory prefix of it.
pub fn matches_filters(path: &str, inclusions: &Vec<String>, exclusions: &Vec<String>) -> (r: bool)
    ensures
        r == passes_filters(path@, views_of(inclusions@), views_of(exclusions@)),
{
    if any_pattern_matches(path, exclusions) {
        return false;
    }
    if inclusions.len() > 0 && !any_pattern_matches(path, inclusions) {
        return false;
    }
    true
}

/// The name of the last module that lists file `f`.
pub open spec fn last_module_name(ms: Seq<Module>, f: Seq<char>) -> Option<Seq<char>>
    decreases ms.len(),
{
    if ms.len() == 0 {
        None
    } else if views_of(ms.last().files@).contains(f) {
        Some(ms.last().name@)
    } else {
        last_module_name(ms.drop_last(), f)
    }
}

/// Structural signals of a dependency graph: its central files and the
/// files reachable from entry points.
#[derive(Debug, Clone)]
pub struct GraphSignals {
    /// Identifiers of the central files.
    pub central: Vec<String>,
    /// Identifiers of the reachable files.
    pub reachable: Vec<String>,
}

/// The signals of a file.
pub open spec fn file_signals(f: FileEntry, ms: Seq<Module>, eps: Seq<EntryPoint>, graph: Option<&GraphSignals>) -> SignalsView {
    SignalsView {
        path: f.path@,
        language: language_view(f.language),
        module: last_module_name(ms, f.path@),
        is_entrypoint: entry_paths(eps).contains(f.path@),
        is_central: match graph {
            Some(g) => views_of(g.central@).contains(f.path@),
            None => false,
        },
        is_reachable: match graph {
            Some(g) => views_of(g.reachable@).contains(f.path@),
            None => false,
        },
    }
}

/// A ranked candidate file before final selection.
#[derive(Debug, Clone)]
pub struct CandidateMeta {
    /// Repository-relative path.
    pub path: String,
    /// Size in bytes.
    pub size: u64,
    /// Language name, when known.
    pub language: Option<String>,
    /// Relevance score in half points.
    pub score: u64,
    /// Reasons the file scored.
    pub reasons: Vec<String>,
}

/// A candidate as (path, size, language, score, reasons).
pub type CandView = (Seq<char>, u64, Option<Seq<char>>, int, Seq<Seq<char>>);

/// The view of a candidate.
pub open spec fn cand_view(c: CandidateMeta) -> CandView {
    (c.path@, c.size, opt_string_view(c.language), c.score as int, views_of(c.reasons@))
}

/// The view of an optional string.
pub open spec fn opt_string_view(o: Option<String>) -> Option<Seq<char>> {
    match o {
        Some(s) => Some(s@),
        None => None,
    }
}

/// The candidate a file makes.
pub open spec fn candidate_of(f: FileEntry, ms: Seq<Module>, eps: Seq<EntryPoint>, graph: Option<&GraphSignals>, q: Seq<Seq<char>>, boost: bool) -> CandView {
    let t = score_of(file_signals(f, ms, eps, graph), q, boost);
    (f.path@, f.size, language_view(f.language), t.score, t.reasons)
}

/// Why the content gate drops a file, if it does.
pub open spec fn gate_reason(path: Seq<char>, gate: bool) -> Option<DroppedReason> {
    if !gate {
        None
    } else {
        match class_of(path) {
            ContentClass::Source => None,
            ContentClass::NonText => Some(DroppedReason::NonText),
            ContentClass::Generated => Some(DroppedReason::Generated),
        }
    }
}

/// The detail of a drop by the content gate.
pub open spec fn gate_detail(r: DroppedReason) -> Seq<char> {
    if r == DroppedReason::NonText {
        "binary or media asset (non-text)"@
    } else {
        "generated lockfile or bundle"@
    }
}

/// A dropped file as (path, reason, detail).
pub open spec fn dropped_view(d: DroppedFile) -> (Seq<char>, DroppedReason, Seq<char>) {
    (d.path@, d.reason, d.detail@)
}

/// A threshold in millionths, held to at most one million (relevance 1).
pub open spec fn clamp_threshold(t: u64) -> int {
    if t > 1000000 {
        1000000
    } else {
        t as int
    }
}

/// Whether a score meets the minimum relevance (in millionths, a larger
/// threshold counting as one million) given the best score: relevance is
/// the score over the best one, or zero when the best is zero.
pub open spec fn meets(score: int, best: int, min_relevance: Option<u64>) -> bool {
    match min_relevance {
        None => true,
        Some(t) => if best > 0 {
            score * 1000000 >= clamp_threshold(t) * best
        } else {
            clamp_threshold(t) == 0
        },
    }
}

/// The best score of the candidates, or zero.
pub open spec fn best_score(cs: Seq<CandView>) -> int
    decreases cs.len(),
{
    if cs.len() == 0 {
        0
    } else {
        let b = best_score(cs.drop_last());
        if cs.last().3 > b {
            cs.last().3
        } else {
            b
        }
    }
}

/// Candidates by score (highest first), then path.
pub open spec fn cand_le(a: CandView, b: CandView) -> bool {
    a.3 > b.3 || (a.3 == b.3 && lex_le(a.0, b.0, false))
}

/// The rank order as a relation.
pub open spec fn cand_order() -> spec_fn(CandView, CandView) -> bool {
    |a: CandView, b: CandView| cand_le(a, b)
}

/// Whether candidates are in rank order.
pub open spec fn cands_sorted(s: Seq<CandView>) -> bool {
    sorted_by(s, |a: CandView, b: CandView| cand_le(a, b))
}

/// What ranking yields for one file, in file order: `None` for a file the
/// filters exclude, else its gate drop or its candidate.
pub open spec fn file_step(
    f: FileEntry,
    ms: Seq<Module>,
    eps: Seq<EntryPoint>,
    graph: Option<&GraphSignals>,
    q: Seq<Seq<char>>,
    boost: bool,
    gate: bool,
    inc: Seq<Seq<char>>,
    exc: Seq<Seq<char>>,
) -> Option<Result<CandView, (Seq<char>, DroppedReason, Seq<char>)>> {
    if !passes_filters(f.path@, inc, exc) {
        None
    } else {
        match gate_reason(f.path@, gate) {
            Some(r) => Some(Err((f.path@, r, gate_detail(r)))),
            None => Some(Ok(candidate_of(f, ms, eps, graph, q, boost))),
        }
    }
}

/// The outcome of ranking: candidates in rank order, files dropped by the
/// content gate (in file order), candidates below the minimum relevance (in
/// file order), the number of files the filters exclude and the best score
/// among all scored files.
pub struct RankOutcome {
    pub candidates: Vec<CandidateMeta>,
    pub gated: Vec<DroppedFile>,
    pub below: Vec<CandidateMeta>,
    pub excluded: usize,
    pub best: u64,
}

/// Tunable knobs for ranking.
#[derive(Debug, Clone, Copy)]
pub struct RankConfig {
    /// Whether entry point / centrality / reachability boosts apply.
    pub structural_boost: bool,
    /// Whether the content gate applies before scoring.
    pub content_gate_enabled: bool,
}

/// The excluded files, gate drops and candidates of the files, in order.
pub open spec fn rank_parts(
    files: Seq<FileEntry>,
    ms: Seq<Module>,
    eps: Seq<EntryPoint>,
    graph: Option<&GraphSignals>,
    q: Seq<Seq<char>>,
    boost: bool,
    gate: bool,
    inc: Seq<Seq<char>>,
    exc: Seq<Seq<char>>,
) -> (nat, Seq<(Seq<char>, DroppedReason, Seq<char>)>, Seq<CandView>)
    decreases files.len(),
{
    if files.len() == 0 {
        (0, Seq::empty(), Seq::empty())
    } else {
        let p = rank_parts(files.drop_last(), ms, eps, graph, q, boost, gate, inc, exc);
        match file_step(files.last(), ms, eps, graph, q, boost, gate, inc, exc) {
            None => (p.0 + 1, p.1, p.2),
            Some(Err(d)) => (p.0, p.1.push(d), p.2),
            Some(Ok(c)) => (p.0, p.1, p.2.push(c)),
        }
    }
}

/// Each file counts once: excluded by the filters, dropped at the content
/// gate, or a scored candidate.
pub proof fn lemma_rank_parts_count(
    files: Seq<FileEntry>,
    ms: Seq<Module>,
    eps: Seq<EntryPoint>,
    graph: Option<&GraphSignals>,
    q: Seq<Seq<char>>,
    boost: bool,
    gate: bool,
    inc: Seq<Seq<char>>,
    exc: Seq<Seq<char>>,
)
    ensures
        ({
            let p = rank_parts(files, ms, eps, graph, q, boost, gate, inc, exc);
            p.0 + p.1.len() + p.2.len() == files.len()
        }),
    decreases files.len(),
{
    if files.len() > 0 {
        lemma_rank_parts_count(files.drop_last(), ms, eps, graph, q, boost, gate, inc, exc);
    }
}

/// Whether a candidate meets the threshold.
pub open spec fn meets_pred(best: int, min_relevance: Option<u64>) -> spec_fn(CandView) -> bool {
    |c: CandView| meets(c.3, best, min_relevance)
}

/// Whether a candidate falls below the threshold.
pub open spec fn below_pred(best: int, min_relevance: Option<u64>) -> spec_fn(CandView) -> bool {
    |c: CandView| !meets(c.3, best, min_relevance)
}

/// Whether some string equals `p`.
fn contains_str(v: &Vec<String>, p: &str) -> (r: bool)
    ensures
        r == views_of(v@).contains(p@),
{
    let pc = chars_of(p);
    crate::repo::metadata_detector::list_contains(v, pc.as_slice())
}

/// The name of the last module listing `f`.
fn last_module_name_exec(modules: &Vec<Module>, f: &str) -> (r: Option<String>)
    ensures
        opt_string_view(r) == last_module_name(modules@, f@),
{
    let mut i: usize = modules.len();
    assert(modules@.take(modules@.len() as int) =~= modules@);
    while i > 0
        invariant
            i <= modules.len(),
            last_module_name(modules@, f@) == last_module_name(modules@.take(i as int), f@),
        decreases i,
    {
        assert(modules@.take(i as int).drop_last() =~= modules@.take(i - 1));
        assert(modules@.take(i as int).last() == modules@[i - 1]);
        if contains_str(&modules[i - 1].files, f) {
            return Some(modules[i - 1].name.clone());
        }
        i = i - 1;
    }
    None
}

/// Scores and sorts the candidate files by relevance: files failing the
/// filters are counted, the content gate drops binary and generated files,
/// the rest are scored; with a minimum relevance (in millionths, at most
/// one million) the candidates below it are set apart; the others are
/// sorted by score (highest first), then path.
pub fn rank_candidates(
    config: RankConfig,
    files: &Vec<FileEntry>,
    modules: &Vec<Module>,
    entry_points: &Vec<EntryPoint>,
    graph: Option<&GraphSignals>,
    query: &QueryTokens,
    inclusions: &Vec<String>,
    exclusions: &Vec<String>,
    min_relevance: Option<u64>,
) -> (r: RankOutcome)
    requires
        15 * query@.len() + 7 <= u64::MAX,
    ensures
        ({
            let parts = rank_parts(
                files@,
                modules@,
                entry_points@,
                graph,
                query@,
                config.structural_boost,
                config.content_gate_enabled,
                views_of(inclusions@),
                views_of(exclusions@),
            );
            let best = best_score(parts.2);
            &&& r.excluded == parts.0
            &&& r.best == best
            &&& r.gated@.map_values(|d: DroppedFile| dropped_view(d)) == parts.1
            &&& r.below@.map_values(|c: CandidateMeta| cand_view(c)) == parts.2.filter(below_pred(best, min_relevance))
            &&& r.candidates@.map_values(|c: CandidateMeta| cand_view(c)).to_multiset() == parts.2.filter(
                meets_pred(best, min_relevance),
            ).to_multiset()
            &&& cands_sorted(r.candidates@.map_values(|c: CandidateMeta| cand_view(c)))
            &&& r.candidates@.map_values(|c: CandidateMeta| cand_view(c)) == crate::order::sort_spec(
                parts.2.filter(meets_pred(best, min_relevance)),
                cand_order(),
            )
        }),
{
    let ghost ms = modules@;
    let ghost eps = entry_points@;
    let ghost q = query@;
    let ghost boost = config.structural_boost;
    let ghost gate = config.content_gate_enabled;
    let ghost inc = views_of(inclusions@);
    let ghost exc = views_of(exclusions@);
    let mut scored: Vec<CandidateMeta> = Vec::new();
    let mut gated: Vec<DroppedFile> = Vec::new();
    let mut excluded: usize = 0;
    let mut i: usize = 0;
    assert(files@.take(0) =~= Seq::<FileEntry>::empty());
    while i < files.len()
        invariant
            i <= files.len(),
            ms == modules@,
            eps == entry_points@,
            q == query@,
            15 * q.len() + 7 <= u64::MAX,
            boost == config.structural_boost,
            gate == config.content_gate_enabled,
            inc == views_of(inclusions@),
            exc == views_of(exclusions@),
            excluded <= i,
            ({
                let p = rank_parts(files@.take(i as int), ms, eps, graph, q, boost, gate, inc, exc);
                &&& excluded == p.0
                &&& gated@.map_values(|d: DroppedFile| dropped_view(d)) == p.1
                &&& scored@.map_values(|c: CandidateMeta| cand_view(c)) == p.2
            }),
        decreases files.len() - i,
    {
        let f = &files[i];
        proof {
            assert(files@.take(i + 1).drop_last() =~= files@.take(i as int));
            assert(files@.take(i + 1).last() == *f);
        }
        if !matches_filters(f.path.as_str(), inclusions, exclusions) {
            excluded = excluded + 1;
        } else {
            let class = if config.content_gate_enabled {
                classify(f.path.as_str())
            } else {
                ContentClass::Source
            };
            match class {
                ContentClass::NonText => {
                    let ghost old_g = gated@;
                    let d = DroppedFile {
                        path: f.path.clone(),
                        reason: DroppedReason::NonText,
                        detail: crate::text::to_owned_string("binary or media asset (non-text)"),
                    };
                    gated.push(d);
                    assert(gated@.map_values(|d: DroppedFile| dropped_view(d)) =~= old_g.map_values(|d: DroppedFile| dropped_view(d)).push(dropped_view(d)));
                },
                ContentClass::Generated => {
                    let ghost old_g = gated@;
                    let d = DroppedFile {
                        path: f.path.clone(),
                        reason: DroppedReason::Generated,
                        detail: crate::text::to_owned_string("generated lockfile or bundle"),
                    };
                    gated.push(d);
                    assert(gated@.map_values(|d: DroppedFile| dropped_view(d)) =~= old_g.map_values(|d: DroppedFile| dropped_view(d)).push(dropped_view(d)));
                },
                ContentClass::Source => {
                    let module = last_module_name_exec(modules, f.path.as_str());
                    let language: Option<String> = match f.language {
                        Some(l) => Some(crate::text::to_owned_string(l.as_str())),
                        None => None,
                    };
                    let lang_ref: Option<&str> = match &language {
                        Some(l) => Some(l.as_str()),
                        None => None,
                    };
                    let module_ref: Option<&str> = match &module {
                        Some(m) => Some(m.as_str()),
                        None => None,
                    };
                    let is_entrypoint = crate::graph::files::is_entry_pub(entry_points, f.path.as_str());
                    let (is_central, is_reachable) = match graph {
                        Some(g) => (contains_str(&g.central, f.path.as_str()), contains_str(&g.reachable, f.path.as_str())),
                        None => (false, false),
                    };
                    let signals = FileSignals {
                        path: f.path.as_str(),
                        language: lang_ref,
                        module: module_ref,
                        is_entrypoint,
                        is_central,
                        is_reachable,
                    };
                    assert(signals_view(signals) == file_signals(*f, ms, eps, graph));
                    let (sc, reasons) = score(&signals, query, config.structural_boost);
                    let c = CandidateMeta { path: f.path.clone(), size: f.size, language, score: sc, reasons };
                    let ghost old_s = scored@;
                    scored.push(c);
                    assert(scored@.map_values(|c: CandidateMeta| cand_view(c)) =~= old_s.map_values(|c: CandidateMeta| cand_view(c)).push(cand_view(c)));
                },
            }
        }
        i = i + 1;
    }
    assert(files@.take(files@.len() as int) =~= files@);
    let ghost parts = rank_parts(files@, ms, eps, graph, q, boost, gate, inc, exc);
    let ghost sv = scored@.map_values(|c: CandidateMeta| cand_view(c));
    let mut best: u64 = 0;
    let mut k: usize = 0;
    assert(sv.take(0) =~= Seq::<CandView>::empty());
    while k < scored.len()
        invariant
            k <= scored.len(),
            sv == scored@.map_values(|c: CandidateMeta| cand_view(c)),
            best == best_score(sv.take(k as int)),
        decreases scored.len() - k,
    {
        assert(sv.take(k + 1).drop_last() =~= sv.take(k as int));
        if scored[k].score > best {
            best = scored[k].score;
        }
        k = k + 1;
    }
    assert(sv.take(sv.len() as int) =~= sv);
    let ghost keep = meets_pred(best as int, min_relevance);
    let ghost drop = below_pred(best as int, min_relevance);
    let mut kept: Vec<CandidateMeta> = Vec::new();
    let mut below: Vec<CandidateMeta> = Vec::new();
    let ghost n_scored = scored@.len();
    let mut rest = scored;
    let mut idx: usize = 0;
    assert(sv.take(0).filter(keep) =~= Seq::<CandView>::empty());
    assert(sv.take(0).filter(drop) =~= Seq::<CandView>::empty());
    while rest.len() > 0
        invariant
            idx + rest@.len() == sv.len(),
            sv.len() == n_scored,
            n_scored <= usize::MAX,
            rest@.map_values(|c: CandidateMeta| cand_view(c)) == sv.subrange(idx as int, sv.len() as int),
            keep == meets_pred(best as int, min_relevance),
            drop == below_pred(best as int, min_relevance),
            kept@.map_values(|c: CandidateMeta| cand_view(c)) == sv.take(idx as int).filter(keep),
            below@.map_values(|c: CandidateMeta| cand_view(c)) == sv.take(idx as int).filter(drop),
        decreases rest@.len(),
    {
        let ghost old_rest = rest@;
        let c = rest.remove(0);
        let ghost cv = cand_view(c);
        proof {
            assert(c == old_rest[0]);
            assert(old_rest.map_values(|c: CandidateMeta| cand_view(c))[0] == sv.subrange(idx as int, sv.len() as int)[0]);
            assert(cv == sv[idx as int]);
            assert(rest@ =~= old_rest.subrange(1, old_rest.len() as int));
            assert(sv.take(idx + 1) =~= sv.take(idx as int).push(cv));
            sv.take(idx as int).lemma_filter_push(cv, keep);
            sv.take(idx as int).lemma_filter_push(cv, drop);
            let rv = rest@.map_values(|c: CandidateMeta| cand_view(c));
            assert forall|k: int| 0 <= k < rest@.len() implies #[trigger] rv[k] == sv.subrange(idx + 1, sv.len() as int)[k] by {
                assert(rest@[k] == old_rest[k + 1]);
                assert(old_rest.map_values(|c: CandidateMeta| cand_view(c))[k + 1] == sv.subrange(idx as int, sv.len() as int)[k + 1]);
            }
            assert(rest@.map_values(|c: CandidateMeta| cand_view(c)) =~= sv.subrange(idx + 1, sv.len() as int));
        }
        let ok = match min_relevance {
            None => true,
            Some(t0) => {
                let t: u64 = if t0 > 1000000 { 1000000 } else { t0 };
                if best > 0 {
                assert((t as u128) * (best as u128) <= 1000000 * 0xffff_ffff_ffff_ffffu128) by (nonlinear_arith)
                    requires
                        t <= 1000000,
                        best <= 0xffff_ffff_ffff_ffffu64,
                ;
                (c.score as u128) * 1000000 >= (t as u128) * (best as u128)
                } else {
                    t == 0
                }
            },
        };
        assert(ok == keep(cv));
        if ok {
            let ghost old_k = kept@;
            kept.push(c);
            assert(kept@.map_values(|c: CandidateMeta| cand_view(c)) =~= old_k.map_values(|c: CandidateMeta| cand_view(c)).push(cv));
        } else {
            let ghost old_b = below@;
            below.push(c);
            assert(below@.map_values(|c: CandidateMeta| cand_view(c)) =~= old_b.map_values(|c: CandidateMeta| cand_view(c)).push(cv));
        }
        idx = idx + 1;
    }
    assert(sv.take(idx as int) =~= sv);
    let ghost unsorted = kept@;
    proof {
        lemma_cand_preorder();
    }
    let before = |a: &CandidateMeta, b: &CandidateMeta| -> (o: bool)
        ensures
            o == cand_le(cand_view(*a), cand_view(*b)),
        {
            if a.score != b.score {
                a.score > b.score
            } else {
                compare_str(a.path.as_str(), b.path.as_str(), false) <= 0
            }
        };
    let ghost le = |a: CandidateMeta, b: CandidateMeta| cand_le(cand_view(a), cand_view(b));
    proof {
        let cle = |a: CandView, b: CandView| cand_le(a, b);
        assert forall|a: CandidateMeta, b: CandidateMeta| #[trigger] le(a, b) || #[trigger] le(b, a) by {
            assert(cle(cand_view(a), cand_view(b)) || cle(cand_view(b), cand_view(a)));
        }
        assert forall|a: CandidateMeta, b: CandidateMeta, c: CandidateMeta| #[trigger] le(a, b) && #[trigger] le(b, c) implies le(a, c) by {
            assert(cle(cand_view(a), cand_view(b)) && cle(cand_view(b), cand_view(c)) ==> cle(cand_view(a), cand_view(c)));
        }
    }
    let sorted = stable_sort(kept, &before, Ghost(le));
    proof {
        crate::repo::scan::lemma_map_multiset(unsorted, sorted@, |c: CandidateMeta| cand_view(c));
        assert forall|a: CandidateMeta, b: CandidateMeta| #[trigger] le(a, b) == cand_order()(cand_view(a), cand_view(b)) by {}
        crate::order::lemma_sort_map(unsorted, |c: CandidateMeta| cand_view(c), le, cand_order());
        let sv2 = sorted@.map_values(|c: CandidateMeta| cand_view(c));
        assert forall|x: int, y: int| 0 <= x < y < sv2.len() implies cand_le(sv2[x], sv2[y]) by {
            assert(le(sorted@[x], sorted@[y]));
        }
    }
    RankOutcome { candidates: sorted, gated, below, excluded, best }
}

proof fn lemma_cand_preorder()
    ensures
        crate::order::total_preorder(|a: CandView, b: CandView| cand_le(a, b)),
{
    let le = |a: CandView, b: CandView| cand_le(a, b);
    assert forall|a: CandView, b: CandView| #[trigger] le(a, b) || #[trigger] le(b, a) by {
        crate::order::lemma_lex_lt_total(a.0, b.0, false);
    }
    assert forall|a: CandView, b: CandView, c: CandView| #[trigger] le(a, b) && #[trigger] le(b, c) implies le(a, c) by {
        if a.0 != b.0 && b.0 != c.0 && lex_lt(a.0, b.0, false) && lex_lt(b.0, c.0, false) {
            crate::order::lemma_lex_lt_trans(a.0, b.0, c.0, false);
        }
    }
}

/// How many top-ranked files are checked for duplicates: the configured
/// cap, lowered to `max(4 * max_files, 128)` when a file budget is given,
/// and to the number of candidates.
pub open spec fn dedup_limit_spec(max_dedup: usize, candidates: usize, max_files: Option<usize>) -> int {
    let capped = match max_files {
        Some(m) => {
            let four = if 4 * m > usize::MAX { usize::MAX as int } else { 4 * m };
            let floor = if four > 128 { four } else { 128 };
            if (max_dedup as int) < floor { max_dedup as int } else { floor }
        },
        None => max_dedup as int,
    };
    if capped < candidates { capped } else { candidates as int }
}

/// How many top-ranked files to check for duplicates.
pub fn dedup_limit(max_dedup: usize, candidates: usize, max_files: Option<usize>) -> (r: usize)
    ensures
        r == dedup_limit_spec(max_dedup, candidates, max_files),
{
    let mut limit = max_dedup;
    if let Some(m) = max_files {
        let four: usize = if m > usize::MAX / 4 { usize::MAX } else { m * 4 };
        let floor = if four > 128 { four } else { 128 };
        if floor < limit {
            limit = floor;
        }
    }
    if candidates < limit {
        candidates
    } else {
        limit
    }
}

/// A ranked candidate offered to the budget pass.
pub struct SelectItem {
    /// Repository-relative path.
    pub path: String,
    /// Approximate tokens.
    pub tokens: usize,
    /// Whether the file was collapsed as a near-duplicate.
    pub duplicate: bool,
}

/// The decision for one ranked candidate.
#[derive(Debug, Clone, PartialEq, Eq)]
pub enum Selection {
    /// The file is selected.
    Kept,
    /// The file is a near-duplicate of a selected one.
    Duplicate,
    /// The file exceeds the budget; the detail gives the numbers.
    OverBudget { detail: String },
}

/// A decision as text: `None` for kept, `Some(None)` for a duplicate,
/// `Some(Some(detail))` for a budget drop.
pub open spec fn selection_view(s: Selection) -> Option<Option<Seq<char>>> {
    match s {
        Selection::Kept => None,
        Selection::Duplicate => Some(None),
        Selection::OverBudget { detail } => Some(Some(detail@)),
    }
}

/// The budget state after the items, and their decisions, in order.
pub open spec fn select_run(st: PrunerView, items: Seq<(bool, nat)>) -> (PrunerView, Seq<Option<Option<Seq<char>>>>)
    decreases items.len(),
{
    if items.len() == 0 {
        (st, Seq::empty())
    } else {
        let p = select_run(st, items.drop_last());
        let s = p.0;
        let it = items.last();
        if it.0 {
            (s, p.1.push(Some(None)))
        } else if files_full(s) {
            (s, p.1.push(Some(Some(files_budget_detail(s.max_files->0 as nat)))))
        } else if tokens_exceeded(s, it.1) {
            (s, p.1.push(Some(Some(tokens_budget_detail(it.1, s.tokens_used, s.max_tokens->0 as nat)))))
        } else {
            (PrunerView { files_used: s.files_used + 1, tokens_used: s.tokens_used + it.1, ..s }, p.1.push(None))
        }
    }
}

/// The (duplicate, tokens) pairs of items.
pub open spec fn item_views(items: Seq<SelectItem>) -> Seq<(bool, nat)> {
    Seq::new(items.len(), |i: int| (items[i].duplicate, items[i].tokens as nat))
}

/// The total tokens of items.
pub open spec fn total_tokens(items: Seq<(bool, nat)>) -> nat
    decreases items.len(),
{
    if items.len() == 0 {
        0
    } else {
        total_tokens(items.drop_last()) + items.last().1
    }
}

proof fn lemma_total_tokens_prefix(items: Seq<(bool, nat)>, i: int)
    requires
        0 <= i <= items.len(),
    ensures
        total_tokens(items.take(i)) <= total_tokens(items),
    decreases items.len() - i,
{
    if i < items.len() {
        lemma_total_tokens_prefix(items, i + 1);
        assert(items.take(i + 1).drop_last() =~= items.take(i));
    } else {
        assert(items.take(i) =~= items);
    }
}

/// Running the budget gate keeps its caps, counts at most one file and the
/// item's tokens per item, decides once per item, and stays within budget.
pub proof fn lemma_run_bounds(st: PrunerView, items: Seq<(bool, nat)>)
    ensures
        select_run(st, items).0.max_files == st.max_files,
        select_run(st, items).0.max_tokens == st.max_tokens,
        select_run(st, items).0.files_used <= st.files_used + items.len(),
        select_run(st, items).0.tokens_used <= st.tokens_used + total_tokens(items),
        select_run(st, items).1.len() == items.len(),
        within_budget(st) ==> within_budget(select_run(st, items).0),
    decreases items.len(),
{
    if items.len() > 0 {
        lemma_run_bounds(st, items.drop_last());
    }
}

/// Offers the ranked candidates to a budget gate of `max_files` files and
/// `max_tokens` tokens: a near-duplicate is set aside without counting,
/// any other candidate is kept or dropped by the budget.
pub fn select_within_budget(items: &Vec<SelectItem>, max_files: Option<usize>, max_tokens: Option<usize>) -> (r: Vec<Selection>)
    requires
        max_tokens is None ==> total_tokens(item_views(items@)) <= usize::MAX,
    ensures
        r@.map_values(|s: Selection| selection_view(s)) == select_run(
            PrunerView { max_files, max_tokens, files_used: 0, tokens_used: 0 },
            item_views(items@),
        ).1,
{
    let ghost iv = item_views(items@);
    let ghost init = PrunerView { max_files, max_tokens, files_used: 0, tokens_used: 0 };
    let mut pruner = Pruner::new(max_files, max_tokens);
    let mut out: Vec<Selection> = Vec::new();
    let mut i: usize = 0;
    assert(iv.take(0) =~= Seq::<(bool, nat)>::empty());
    while i < items.len()
        invariant
            i <= items.len(),
            iv == item_views(items@),
            max_tokens is None ==> total_tokens(iv) <= usize::MAX,
            init == (PrunerView { max_files, max_tokens, files_used: 0, tokens_used: 0 }),
            pruner@ == select_run(init, iv.take(i as int)).0,
            out@.map_values(|s: Selection| selection_view(s)) == select_run(init, iv.take(i as int)).1,
        decreases items.len() - i,
    {
        let it = &items[i];
        proof {
            assert(iv.take(i + 1).drop_last() =~= iv.take(i as int));
            assert(iv.take(i + 1).last() == (it.duplicate, it.tokens as nat));
            lemma_run_bounds(init, iv.take(i as int));
            lemma_total_tokens_prefix(iv, i + 1);
            assert(total_tokens(iv.take(i + 1)) == total_tokens(iv.take(i as int)) + it.tokens);
        }
        let ghost old_out = out@;
        if it.duplicate {
            out.push(Selection::Duplicate);
        } else {
            let c = PruneCandidate { path: it.path.clone(), tokens: it.tokens };
            let o = pruner.offer(&c);
            match o {
                PruneOutcome::Keep => {
                    out.push(Selection::Kept);
                },
                PruneOutcome::Drop { reason, detail } => {
                    out.push(Selection::OverBudget { detail });
                },
            }
        }
        assert(out@.map_values(|s: Selection| selection_view(s)) =~= old_out.map_values(|s: Selection| selection_view(s)).push(selection_view(out@.last())));
        i = i + 1;
    }
    assert(iv.take(iv.len() as int) =~= iv);
    out
}

/// The tokens of the kept items never exceed the token budget, and their
/// number never exceeds the file budget.
pub proof fn law_selection_within_budget(items: Seq<(bool, nat)>, max_files: Option<usize>, max_tokens: Option<usize>)
    ensures
        within_budget(select_run(PrunerView { max_files, max_tokens, files_used: 0, tokens_used: 0 }, items).0),
{
    lemma_run_bounds(PrunerView { max_files, max_tokens, files_used: 0, tokens_used: 0 }, items);
}

/// A near-duplicate is always set aside: its decision is the duplicate one,
/// never a selection or a budget drop, whatever the budget.
pub proof fn law_duplicates_set_aside(st: PrunerView, items: Seq<(bool, nat)>, i: int)
    requires
        0 <= i < items.len(),
        items[i].0,
    ensures
        select_run(st, items).1[i] == Some(None::<Seq<char>>),
    decreases items.len(),
{
    lemma_run_bounds(st, items.drop_last());
    if i < items.len() - 1 {
        law_duplicates_set_aside(st, items.drop_last(), i);
    }
}

/// One budget decision: a candidate that is no near-duplicate is kept
/// exactly when the file cap is not reached and its tokens fit under the
/// token cap; keeping it counts one more file and its tokens, and dropping
/// it leaves the counters as they were.
pub proof fn law_budget_step(st: PrunerView, items: Seq<(bool, nat)>, tokens: nat)
    ensures
        ({
            let before = select_run(st, items).0;
            let after = select_run(st, items.push((false, tokens)));
            &&& (after.1.last() == None::<Option<Seq<char>>>) == (!files_full(before) && !tokens_exceeded(before, tokens))
            &&& after.1.last() == None::<Option<Seq<char>>> ==> after.0 == (PrunerView {
                files_used: before.files_used + 1,
                tokens_used: before.tokens_used + tokens,
                ..before
            })
            &&& after.1.last() != None::<Option<Seq<char>>> ==> after.0 == before
        }),
{
    assert(items.push((false, tokens)).drop_last() =~= items);
}

} // verus!
