use ink_analysis::context::engine::{
    ContextOptimizer, ContextRequest, Decision, OptimizedPlan, OptimizerConfig,
};
use ink_analysis::context::models::DroppedReason;
use ink_analysis::context::optimizer::GraphSignals;
use ink_analysis::graph::builder::{AnalysisResult, DependencyGraphBuilder};
use ink_analysis::repo::entrypoint_detector::EntryPointDetector;
use ink_analysis::repo::import_extractor::ImportExtractor;
use ink_analysis::repo::language_detector::LanguageDetector;
use ink_analysis::repo::models::{EntryPoint, FileEntry, Module, Relationship};
use ink_analysis::repo::module_detector::ModuleDetector;
use ink_analysis::repo::scan::{post_process, RawEntry};

const ROOT: &str = "/repo";

/// A repository held in memory: each file's path and bytes.
struct Fixture {
    files: Vec<FileEntry>,
    contents: Vec<Option<String>>,
    entry_points: Vec<EntryPoint>,
    modules: Vec<Module>,
    graph: AnalysisResult,
}

fn fixture_of(text: &[(&str, &str)], binary: &[(&str, Vec<u8>)]) -> Fixture {
    let mut repo: Vec<(&str, Vec<u8>)> = text.iter().map(|(p, c)| (*p, c.as_bytes().to_vec())).collect();
    repo.extend(binary.iter().map(|(p, b)| (*p, b.clone())));
    let mut dirs = std::collections::BTreeSet::new();
    let mut raw = Vec::new();
    for (rel, bytes) in &repo {
        let parts: Vec<&str> = rel.split('/').collect();
        for end in 1..parts.len() {
            dirs.insert(parts[..end].join("/"));
        }
        raw.push(RawEntry {
            path: format!("{ROOT}/{rel}"),
            is_dir: false,
            size: bytes.len() as u64,
        });
    }
    for dir in dirs {
        raw.push(RawEntry {
            path: format!("{ROOT}/{dir}"),
            is_dir: true,
            size: 0,
        });
    }
    let scan = post_process(ROOT, raw, 0, 0);
    let text_of = |rel: &str| -> Option<String> {
        let bytes = repo.iter().find(|(path, _)| *path == rel).map(|(_, b)| b.clone())?;
        String::from_utf8(bytes).ok()
    };
    let contents: Vec<Option<String>> = scan.files.iter().map(|f| text_of(&f.rel)).collect();
    let files: Vec<FileEntry> = scan
        .files
        .iter()
        .map(|f| FileEntry {
            path: f.rel.clone(),
            size: f.size,
            language: LanguageDetector.detect(&f.rel),
        })
        .collect();
    let packages: Vec<(String, String)> = scan
        .files
        .iter()
        .zip(contents.iter())
        .filter(|(f, _)| f.rel.rsplit('/').next() == Some("package.json"))
        .filter_map(|(f, c)| c.clone().map(|text| (f.rel.clone(), text)))
        .collect();
    let entry_points = EntryPointDetector.detect(&scan, &packages);
    let modules = ModuleDetector::default().detect(&scan);
    let extractor = ImportExtractor::default();
    let wanted: Vec<Option<String>> = scan
        .files
        .iter()
        .zip(contents.iter())
        .map(|(f, c)| if extractor.wants(f) { c.clone() } else { None })
        .collect();
    let relationships: Vec<Relationship> = extractor.extract(&scan, &wanted);
    let graph = DependencyGraphBuilder::new(&files, &entry_points, &relationships, &modules).build();
    Fixture {
        files,
        contents,
        entry_points,
        modules,
        graph,
    }
}

fn signals(graph: &AnalysisResult) -> GraphSignals {
    GraphSignals {
        central: graph.central_files.iter().map(|n| n.id.clone()).collect(),
        reachable: graph.reachability.reachable_nodes.clone(),
    }
}

fn run(optimizer: &ContextOptimizer, fx: &Fixture, with_graph: bool, request: &ContextRequest) -> OptimizedPlan {
    let graph = signals(&fx.graph);
    let graph_ref = if with_graph { Some(&graph) } else { None };
    optimizer
        .optimize(&fx.files, &fx.modules, &fx.entry_points, graph_ref, request, &fx.contents)
        .unwrap()
}

fn optimize_context(fx: &Fixture, with_graph: bool, request: &ContextRequest) -> OptimizedPlan {
    run(&ContextOptimizer::with_defaults(), fx, with_graph, request)
}

/// Selected candidates with their tokens, in rank order.
fn selected(plan: &OptimizedPlan) -> Vec<(&str, usize, u64, &[String])> {
    plan.candidates
        .iter()
        .zip(plan.decisions.iter())
        .filter_map(|(c, d)| match d {
            Decision::Kept { tokens, .. } => Some((c.path.as_str(), *tokens, c.score, c.reasons.as_slice())),
            _ => None,
        })
        .collect()
}

/// Every drop reason recorded, in the order the optimiser reports them.
fn dropped(plan: &OptimizedPlan) -> Vec<DroppedReason> {
    let mut out: Vec<DroppedReason> = plan.gated.iter().map(|d| d.reason).collect();
    out.extend(plan.below.iter().map(|_| DroppedReason::LowRelevance));
    for d in &plan.decisions {
        match d {
            Decision::Duplicate { .. } => out.push(DroppedReason::Duplicate),
            Decision::OverBudget { .. } => out.push(DroppedReason::BudgetExceeded),
            Decision::Kept { .. } => {}
        }
    }
    out
}

fn count(plan: &OptimizedPlan, reason: DroppedReason) -> usize {
    dropped(plan).into_iter().filter(|r| *r == reason).count()
}

fn fixture() -> Fixture {
    fixture_of(
        &[
            ("src/main.rs", "mod auth;\nmod db;\nmod ui;\nfn main() { auth::login(); }"),
            ("src/auth.rs", "pub fn login() {}\npub fn register() {}"),
            ("src/db.rs", "pub fn connect() {}"),
            ("src/ui.rs", "pub fn render() {}"),
            ("README.md", "# Demo\n\nAuth flow documentation.\n"),
            ("tests/auth_test.rs", "fn test_login() {}"),
            ("src/auth_mirror.rs", "pub fn login() {}\npub fn register() {}"),
        ],
        &[],
    )
}

fn gate_fixture() -> Fixture {
    fixture_of(
        &[
            ("src/main.rs", "fn main() {}"),
            ("src/app.rs", "pub fn run() {}"),
            ("README.md", "# Demo\n"),
            (".gitignore", "node_modules/\n"),
            ("package-lock.json", "{\"lockfileVersion\":3,\"packages\":{}}"),
            (
                "Cargo.lock",
                "# This file is automatically @generated by Cargo.\nversion = 4\n",
            ),
        ],
        &[(
            "assets/logo.png",
            vec![0x89, 0x50, 0x4e, 0x47, 0x0d, 0x0a, 0x1a, 0x0a, 0x00, 0x01, 0x02, 0x03],
        )],
    )
}

#[test]
fn selects_relevant_files_first() {
    let fx = fixture();
    let request = ContextRequest {
        query: "auth".to_owned(),
        ..Default::default()
    };
    let plan = optimize_context(&fx, true, &request);
    let sel = selected(&plan);
    assert_eq!(sel[0].0, "src/auth.rs");
    assert!(sel.iter().any(|f| f.0 == "src/main.rs"));
    assert!(
        sel.iter().position(|f| f.0 == "src/auth.rs") < sel.iter().position(|f| f.0 == "src/ui.rs")
    );
    assert!(sel[0].3.iter().any(|r| r.contains("auth")));
}

#[test]
fn collapses_near_duplicate_files() {
    let fx = fixture();
    let request = ContextRequest::default();
    let plan = optimize_context(&fx, true, &request);
    let sel = selected(&plan);
    let kept_auth = sel.iter().any(|f| f.0 == "src/auth.rs");
    let kept_mirror = sel.iter().any(|f| f.0 == "src/auth_mirror.rs");
    assert!(kept_auth || kept_mirror, "one copy of the duplicate must be kept");
    assert!(!(kept_auth && kept_mirror), "duplicates must not both be kept");
    assert!(dropped(&plan).contains(&DroppedReason::Duplicate));
    assert_eq!(count(&plan, DroppedReason::Duplicate), 1);
    assert_eq!(plan.files_collapsed, 1);
    assert_eq!(plan.groups.len(), 1);
}

#[test]
fn context_optimizer_enforces_token_budget() {
    let fx = fixture();
    let request = ContextRequest {
        max_tokens: Some(5),
        ..Default::default()
    };
    let plan = optimize_context(&fx, true, &request);
    assert!(plan.tokens.within_budget);
    assert!(plan.tokens.tokens_after <= 5);
    assert!(!selected(&plan).is_empty());
    assert!(plan.files_over_budget > 0);
    assert!(!dropped(&plan).is_empty());
}

#[test]
fn respects_include_and_exclude_filters() {
    let fx = fixture();
    let request = ContextRequest {
        include_paths: vec!["src".to_owned()],
        exclude_paths: vec!["src/ui.rs".to_owned()],
        ..Default::default()
    };
    let plan = optimize_context(&fx, true, &request);
    for (path, ..) in selected(&plan) {
        assert!(path.starts_with("src/"));
        assert_ne!(path, "src/ui.rs");
    }
    // README, the test file and ui.rs.
    assert_eq!(plan.excluded, 3);
    assert_eq!(plan.files_considered + plan.excluded, fx.files.len());
}

#[test]
fn empty_repository_yields_empty_context() {
    let fx = fixture_of(&[], &[]);
    let plan = optimize_context(&fx, true, &ContextRequest::default());
    assert!(selected(&plan).is_empty());
    assert_eq!(plan.candidates.len(), 0);
    assert_eq!(plan.files_considered, 0);
}

#[test]
fn output_is_deterministic() {
    let fx = fixture();
    let request = ContextRequest {
        query: "auth login".to_owned(),
        max_tokens: Some(20),
        ..Default::default()
    };
    let first = optimize_context(&fx, true, &request);
    let second = optimize_context(&fx, true, &request);
    assert_eq!(format!("{first:?}"), format!("{second:?}"));
}

#[test]
fn token_estimates_are_reported_per_file() {
    let fx = fixture();
    let plan = optimize_context(&fx, true, &ContextRequest::default());
    let sel = selected(&plan);
    assert!(sel.iter().all(|f| f.1 >= 1));
    assert_eq!(plan.tokens.tokens_after, sel.iter().map(|f| f.1).sum::<usize>());
}

#[test]
fn works_without_dependency_graph() {
    let fx = fixture();
    let request = ContextRequest {
        query: "db".to_owned(),
        ..Default::default()
    };
    let plan = optimize_context(&fx, false, &request);
    assert!(selected(&plan)[0].0 == "src/db.rs");
    assert!(plan.files_selected >= 1);
}

#[test]
fn excludes_binary_and_generated_files() {
    let fx = gate_fixture();
    let plan = optimize_context(&fx, true, &ContextRequest::default());
    let paths: Vec<&str> = selected(&plan).iter().map(|f| f.0).collect();
    assert!(!paths.contains(&"assets/logo.png"));
    assert!(!paths.contains(&"package-lock.json"));
    assert!(!paths.contains(&"Cargo.lock"));
    assert!(paths.contains(&"src/app.rs"));
    assert_eq!(count(&plan, DroppedReason::NonText), 1);
    assert_eq!(count(&plan, DroppedReason::Generated), 2);
}

#[test]
fn min_relevance_filters_low_relevance_files() {
    let fx = gate_fixture();
    let request = ContextRequest {
        query: "app".to_owned(),
        min_relevance_millionths: Some(500_000),
        ..Default::default()
    };
    let plan = optimize_context(&fx, true, &request);
    let best = plan.best_score as f64;
    assert!(selected(&plan)
        .iter()
        .all(|f| f.2 as f64 / best >= 0.5));
    // README and .gitignore score zero.
    assert!(count(&plan, DroppedReason::LowRelevance) >= 2);
}

#[test]
fn content_gate_can_be_disabled() {
    let fx = gate_fixture();
    let optimizer = ContextOptimizer::new(OptimizerConfig {
        content_gate_enabled: false,
        ..Default::default()
    });
    let plan = run(&optimizer, &fx, true, &ContextRequest::default());
    let sel = selected(&plan);
    // The binary file stays a candidate: its content is unreadable, so its
    // tokens come from its size and a note records it.
    assert!(sel.iter().any(|f| f.0 == "assets/logo.png"));
    assert!(sel.iter().any(|f| f.0 == "package-lock.json"));
    assert_eq!(count(&plan, DroppedReason::NonText), 0);
    assert_eq!(count(&plan, DroppedReason::Generated), 0);
    assert!(plan
        .warnings
        .iter()
        .any(|w| w == "`assets/logo.png` content not read (too large or not UTF-8); token estimate uses file size"));
}

#[test]
fn empty_query_is_noted_and_budget_sums_agree() {
    let fx = fixture();
    let request = ContextRequest {
        max_files: Some(2),
        ..Default::default()
    };
    let plan = optimize_context(&fx, true, &request);
    assert_eq!(
        plan.warnings[0],
        "query produced no tokens; selection uses structural signals only"
    );
    assert_eq!(plan.files_selected, 2);
    assert_eq!(
        plan.files_selected + plan.files_collapsed + plan.files_over_budget,
        plan.candidates.len()
    );
    let kept_bytes: u64 = plan
        .candidates
        .iter()
        .zip(plan.decisions.iter())
        .filter(|(_, d)| matches!(d, Decision::Kept { .. }))
        .map(|(c, _)| c.size)
        .sum();
    assert_eq!(plan.bytes_after, kept_bytes);
    assert_eq!(plan.bytes_before, plan.candidates.iter().map(|c| c.size).sum::<u64>());
}

#[test]
fn thresholds_above_one_count_as_one() {
    let fx = fixture();
    let at_one = ContextRequest {
        query: "auth login".to_owned(),
        min_relevance_millionths: Some(1_000_000),
        ..Default::default()
    };
    let above = ContextRequest {
        query: "auth login".to_owned(),
        min_relevance_millionths: Some(5_000_000),
        ..Default::default()
    };
    let a = optimize_context(&fx, true, &at_one);
    let b = optimize_context(&fx, true, &above);
    assert_eq!(format!("{a:?}"), format!("{b:?}"));
    assert!(!a.candidates.is_empty());
}
