use ink_analysis::graph::builder::{AnalysisResult, DependencyGraphBuilder};
use ink_analysis::repo::language::Language;
use ink_analysis::repo::models::{
    EntryPoint, FileEntry, Module, ModuleKind, Relationship, RelationshipKind,
};
use ink_analysis::graph::metrics::{graph_memory_estimate, memory_estimate, string_bytes};
use ink_analysis::graph::models::EdgeKind;
use ink_analysis::graph::analysis::{detect_file_cycles, detect_module_cycles};
use petgraph::graph::DiGraph;

struct Fixture {
    files: Vec<FileEntry>,
    entry_points: Vec<EntryPoint>,
    relationships: Vec<Relationship>,
    modules: Vec<Module>,
}

fn analysis(
    files: &[&str],
    modules: Vec<Module>,
    relationships: Vec<Relationship>,
    entrypoints: &[&str],
) -> Fixture {
    Fixture {
        files: files
            .iter()
            .map(|path| FileEntry {
                path: (*path).to_string(),
                size: 1,
                language: Some(Language::Rust),
            })
            .collect(),
        entry_points: entrypoints
            .iter()
            .map(|path| EntryPoint {
                path: (*path).to_string(),
                confidence_millionths: 1_000_000,
                heuristic: "test".to_string(),
            })
            .collect(),
        relationships,
        modules,
    }
}

fn analyze_dependencies(input: &Fixture) -> AnalysisResult {
    DependencyGraphBuilder::new(
        &input.files,
        &input.entry_points,
        &input.relationships,
        &input.modules,
    )
    .build()
}

fn rel(source: &str, target: &str) -> Relationship {
    Relationship {
        source: source.to_string(),
        target: target.to_string(),
        kind: RelationshipKind::Import,
        resolved: true,
    }
}

fn module(name: &str, root: &str, files: &[&str]) -> Module {
    Module {
        name: name.to_string(),
        kind: ModuleKind::Feature,
        root: root.to_string(),
        files: files.iter().map(|file| (*file).to_string()).collect(),
    }
}

#[test]
fn file_graph_creation_uses_resolved_relationships() {
    let input = analysis(
        &["src/main.rs", "src/auth.rs", "src/db.rs"],
        Vec::new(),
        vec![
            rel("src/main.rs", "src/auth.rs"),
            Relationship {
                source: "src/auth.rs".to_string(),
                target: "sqlx".to_string(),
                kind: RelationshipKind::Import,
                resolved: false,
            },
        ],
        &["src/main.rs"],
    );

    let result = analyze_dependencies(&input);

    assert_eq!(result.file_graph.nodes.len(), 3);
    assert_eq!(result.file_graph.edges.len(), 1);
    assert_eq!(result.file_graph.edges[0].source, "src/main.rs");
    assert_eq!(result.file_graph.edges[0].target, "src/auth.rs");
    assert_eq!(result.warnings.len(), 1);
}

#[test]
fn module_graph_creation_aggregates_many_to_many_file_edges() {
    let input = analysis(
        &["auth/login.rs", "auth/session.rs", "db/pool.rs", "db/user_repo.rs"],
        vec![
            module("auth", "auth", &["auth/login.rs", "auth/session.rs"]),
            module("db", "db", &["db/pool.rs", "db/user_repo.rs"]),
        ],
        vec![
            rel("auth/login.rs", "db/pool.rs"),
            rel("auth/session.rs", "db/user_repo.rs"),
        ],
        &["auth/login.rs"],
    );

    let result = analyze_dependencies(&input);

    assert_eq!(result.module_graph.nodes.len(), 2);
    assert_eq!(result.module_graph.edges.len(), 1);
    assert_eq!(result.module_graph.edges[0].weight, 2);
    assert_eq!(result.module_graph.edges[0].source, "auth:auth");
    assert_eq!(result.module_graph.edges[0].target, "db:db");
}

#[test]
fn cycle_detection_reports_file_and_module_cycles() {
    let input = analysis(
        &["a/mod.rs", "b/mod.rs", "c/mod.rs"],
        vec![
            module("a", "a", &["a/mod.rs"]),
            module("b", "b", &["b/mod.rs"]),
            module("c", "c", &["c/mod.rs"]),
        ],
        vec![
            rel("a/mod.rs", "b/mod.rs"),
            rel("b/mod.rs", "c/mod.rs"),
            rel("c/mod.rs", "a/mod.rs"),
        ],
        &["a/mod.rs"],
    );

    let result = analyze_dependencies(&input);

    assert_eq!(result.file_cycles.len(), 1);
    assert_eq!(result.file_cycles[0].size, 3);
    assert_eq!(result.module_cycles.len(), 1);
    assert_eq!(result.statistics.file_cycle_count, 1);
    assert_eq!(result.statistics.module_cycle_count, 1);
}

#[test]
fn reachability_splits_reachable_and_unreachable_nodes() {
    let input = analysis(
        &["main.rs", "router.rs", "auth.rs", "unused.rs"],
        Vec::new(),
        vec![rel("main.rs", "router.rs"), rel("router.rs", "auth.rs")],
        &["main.rs"],
    );

    let result = analyze_dependencies(&input);

    assert_eq!(
        result.reachability.reachable_nodes,
        vec!["auth.rs", "main.rs", "router.rs"]
    );
    assert_eq!(result.reachability.unreachable_nodes, vec!["unused.rs"]);
}

#[test]
fn depth_analysis_finds_longest_dependency_chain() {
    let input = analysis(
        &["main.rs", "auth.rs", "database.rs", "storage.rs"],
        Vec::new(),
        vec![
            rel("main.rs", "auth.rs"),
            rel("auth.rs", "database.rs"),
            rel("database.rs", "storage.rs"),
        ],
        &["main.rs"],
    );

    let result = analyze_dependencies(&input);

    assert_eq!(result.statistics.maximum_depth, 4);
    assert_eq!(result.dependency_chains[0].nodes[0], "main.rs");
    assert_eq!(result.dependency_chains[0].nodes[3], "storage.rs");
}

#[test]
fn statistics_include_components_density_and_degrees() {
    let input = analysis(
        &["a.rs", "b.rs", "c.rs", "d.rs"],
        Vec::new(),
        vec![rel("a.rs", "b.rs"), rel("b.rs", "c.rs")],
        &["a.rs"],
    );

    let result = analyze_dependencies(&input);

    assert_eq!(result.statistics.node_count, 4);
    assert_eq!(result.statistics.edge_count, 2);
    assert_eq!(result.statistics.largest_connected_component, 3);
    let n = result.statistics.node_count as f64;
    let density = result.statistics.edge_count as f64 / (n * (n - 1.0));
    assert!(density > 0.0);
    let b = result
        .file_metrics
        .iter()
        .find(|metric| metric.id == "b.rs")
        .unwrap();
    assert_eq!(b.total_degree, 2);
}

#[test]
fn monorepo_layouts_keep_package_module_boundaries() {
    let input = analysis(
        &[
            "packages/web/src/page.tsx",
            "packages/ui/src/button.tsx",
            "packages/api/src/client.ts",
        ],
        vec![
            Module {
                name: "web".to_string(),
                kind: ModuleKind::Package,
                root: "packages/web".to_string(),
                files: vec!["packages/web/src/page.tsx".to_string()],
            },
            Module {
                name: "ui".to_string(),
                kind: ModuleKind::Package,
                root: "packages/ui".to_string(),
                files: vec!["packages/ui/src/button.tsx".to_string()],
            },
            Module {
                name: "api".to_string(),
                kind: ModuleKind::Package,
                root: "packages/api".to_string(),
                files: vec!["packages/api/src/client.ts".to_string()],
            },
        ],
        vec![
            rel("packages/web/src/page.tsx", "packages/ui/src/button.tsx"),
            rel("packages/web/src/page.tsx", "packages/api/src/client.ts"),
        ],
        &["packages/web/src/page.tsx"],
    );

    let result = analyze_dependencies(&input);

    assert_eq!(result.module_graph.edges.len(), 2);
    assert!(result
        .module_graph
        .edges
        .iter()
        .any(|edge| edge.target == "packages/ui:ui"));
    assert!(result
        .module_graph
        .edges
        .iter()
        .any(|edge| edge.target == "packages/api:api"));
}

#[test]
fn self_cycles_and_disconnected_components_are_detected() {
    let input = analysis(
        &["a.rs", "b.rs", "c.rs"],
        Vec::new(),
        vec![rel("a.rs", "a.rs"), rel("b.rs", "c.rs")],
        &["b.rs"],
    );

    let result = analyze_dependencies(&input);

    assert_eq!(result.file_cycles.len(), 1);
    assert_eq!(result.file_cycles[0].files, vec!["a.rs"]);
    assert_eq!(result.statistics.largest_connected_component, 2);
}

#[test]
fn large_graphs_remain_deterministic() {
    let files = (0..250)
        .map(|index| format!("src/file_{index}.rs"))
        .collect::<Vec<_>>();
    let file_refs = files.iter().map(String::as_str).collect::<Vec<_>>();
    let relationships = (0..249)
        .map(|index| rel(&files[index], &files[index + 1]))
        .collect::<Vec<_>>();
    let input = analysis(&file_refs, Vec::new(), relationships, &["src/file_0.rs"]);

    let first = analyze_dependencies(&input);
    let second = analyze_dependencies(&input);

    assert_eq!(first.file_graph.edges, second.file_graph.edges);
    assert_eq!(first.statistics.node_count, 250);
    assert_eq!(first.statistics.maximum_depth, 250);
}

#[test]
fn depth_totals_cover_every_reached_node() {
    let input = analysis(
        &["main.rs", "auth.rs", "database.rs", "unused.rs"],
        Vec::new(),
        vec![rel("main.rs", "auth.rs"), rel("auth.rs", "database.rs")],
        &["main.rs"],
    );

    let result = analyze_dependencies(&input);

    // Depths 1, 2 and 3 for the three reached files.
    assert_eq!(result.statistics.reached_count, 3);
    assert_eq!(result.statistics.depth_total, 6);
    assert_eq!(result.statistics.entrypoint_count, 1);
}

#[test]
fn memory_estimate_counts_slots_and_string_bytes() {
    let input = analysis(
        &["a.rs", "b.rs"],
        vec![module("m", "m", &["a.rs"])],
        vec![rel("a.rs", "b.rs")],
        &["a.rs"],
    );
    let result = analyze_dependencies(&input);
    let fg = &result.file_graph;
    let mg = &result.module_graph;
    let expected_strings: usize = fg
        .nodes
        .iter()
        .map(|n| n.id.len() + n.language.as_ref().map_or(0, String::len))
        .sum::<usize>()
        + fg.edges.iter().map(|e| e.source.len() + e.target.len() + e.id.len()).sum::<usize>()
        + mg.nodes.iter().map(|n| n.id.len() + n.name.len() + n.root.len()).sum::<usize>()
        + mg.edges.iter().map(|e| e.source.len() + e.target.len() + e.id.len()).sum::<usize>();
    assert_eq!(string_bytes(fg, mg), Some(expected_strings));
    // "a.rs" + "rust", "b.rs" + "rust": the node strings alone.
    assert!(expected_strings >= 16);
    let node = std::mem::size_of::<String>() + std::mem::size_of::<petgraph::graph::NodeIndex<u32>>();
    let edge = std::mem::size_of::<EdgeKind>() + std::mem::size_of::<(usize, usize)>();
    let expected = fg.nodes.len() * node
        + fg.edges.len() * edge
        + mg.nodes.len() * node
        + mg.edges.len() * edge
        + expected_strings;
    assert_eq!(graph_memory_estimate(fg, mg), Some(expected));
    assert_eq!(
        memory_estimate(fg.nodes.len(), fg.edges.len(), mg.nodes.len(), mg.edges.len(), expected_strings),
        expected
    );
    assert_eq!(memory_estimate(0, 0, 0, 0, 7), 7);
}

#[test]
fn file_and_module_cycle_detection_label_members() {
    let mut g: DiGraph<String, EdgeKind> = DiGraph::new();
    let a = g.add_node("b".to_string());
    let b = g.add_node("a".to_string());
    let c = g.add_node("c".to_string());
    g.add_edge(a, b, EdgeKind::Import);
    g.add_edge(b, a, EdgeKind::Import);
    g.add_edge(c, c, EdgeKind::Import);
    let files = detect_file_cycles(&g);
    assert_eq!(files.len(), 2);
    assert_eq!(files[0].id, "cycle:a|b");
    assert_eq!(files[0].files, vec!["a", "b"]);
    assert!(files[0].modules.is_empty());
    assert_eq!(files[1].id, "cycle:c");
    let modules = detect_module_cycles(&g);
    assert_eq!(modules[0].modules, vec!["a", "b"]);
    assert!(modules[0].files.is_empty());
}
