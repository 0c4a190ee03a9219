//! The graph pipeline: file and module graphs from a repository analysis,
//! then cycles, reachability, degrees, components and depths.

use vstd::prelude::*;
use vstd::relations::sorted_by;
use crate::graph::analysis::{
    analyze_reachability, central_nodes, central_sorted, central_view, cycle_view, cycles_found, cycles_sorted, degree_metrics,
    degrees_of, detect_file_cycles, detect_module_cycles, metric_view, reachable_names,
};
use crate::graph::components::{largest_component, largest_weak_component};
use crate::graph::depth::{DepthSummary, chains_ok, count_some, depth_analysis, depth_sum, depths_ok, entry_starts, top_chains};
use crate::graph::files::{
    EdgeKey, FileGraphData, aggregates, build_file_graph, edge_key, file_graph_warnings, files_sorted, is_key, key_count,
    key_lt, kept_ends, kept_keys, kept_pred, last_pos, lemma_key_lt, missing_pred, node_of, rel_key, unresolved_pred,
    warning_view,
};
use crate::graph::models::{
    CentralNode, Cycle, DependencyChain, EdgeMetrics, FileGraph, FileNode, GraphEdge, GraphWarning, ModuleGraph, ModuleNode,
    Reachability,
};
use crate::graph::modules::{ModuleGraphData, build_module_graph, edges_weight, item_keys, module_aggregates, module_items, module_node_of};
use crate::graph::construct::{first_owner, modules_sorted, pair_lookup};
use crate::graph::pet::{graph_edges, graph_nodes};
use crate::order::{compare_str, lex_le, lemma_key_preorder, stable_sort, strictly_sorted, views_of};
use crate::repo::models::{EntryPoint, FileEntry, Module, Relationship};

verus! {

/// Whether a key lies in a set.
pub open spec fn in_keys(s: Set<EdgeKey>) -> spec_fn(EdgeKey) -> bool {
    |x: EdgeKey| s.contains(x)
}

proof fn lemma_filter_split(ks: Seq<EdgeKey>, s: Set<EdgeKey>, k: EdgeKey)
    requires
        !s.contains(k),
    ensures
        ks.filter(in_keys(s.insert(k))).len() == ks.filter(in_keys(s)).len() + ks.filter(is_key(k)).len(),
    decreases ks.len(),
{
    if ks.len() == 0 {
        assert(ks.filter(in_keys(s.insert(k))) =~= Seq::<EdgeKey>::empty());
        assert(ks.filter(in_keys(s)) =~= Seq::<EdgeKey>::empty());
        assert(ks.filter(is_key(k)) =~= Seq::<EdgeKey>::empty());
    } else {
        let a = ks.drop_last();
        let x = ks.last();
        lemma_filter_split(a, s, k);
        assert(ks =~= a.push(x));
        a.lemma_filter_push(x, in_keys(s.insert(k)));
        a.lemma_filter_push(x, in_keys(s));
        a.lemma_filter_push(x, is_key(k));
    }
}

/// The keys of edges.
pub open spec fn edge_keys(es: Seq<GraphEdge>) -> Seq<EdgeKey> {
    es.map_values(|e: GraphEdge| edge_key(e))
}

/// The total weight of edges with distinct keys, each weighted by how
/// often its key occurs, is the number of keys that belong to some edge.
proof fn lemma_weight_count(es: Seq<GraphEdge>, ks: Seq<EdgeKey>)
    requires
        forall|i: int, j: int| 0 <= i < j < es.len() ==> key_lt(edge_key(#[trigger] es[i]), edge_key(#[trigger] es[j])),
        forall|i: int| 0 <= i < es.len() ==> #[trigger] es[i].weight == key_count(ks, edge_key(es[i])),
    ensures
        edges_weight(es) == ks.filter(in_keys(edge_keys(es).to_set())).len(),
    decreases es.len(),
{
    if es.len() == 0 {
        assert(edge_keys(es).to_set() =~= Set::<EdgeKey>::empty());
        assert(ks.filter(in_keys(Set::<EdgeKey>::empty())).len() == 0) by {
            ks.filter_lemma(in_keys(Set::<EdgeKey>::empty()));
            if ks.filter(in_keys(Set::<EdgeKey>::empty())).len() > 0 {
                assert(in_keys(Set::<EdgeKey>::empty())(ks.filter(in_keys(Set::<EdgeKey>::empty()))[0]));
            }
        }
    } else {
        let p = es.drop_last();
        assert forall|i: int, j: int| 0 <= i < j < p.len() implies key_lt(edge_key(#[trigger] p[i]), edge_key(#[trigger] p[j])) by {
            assert(p[i] == es[i] && p[j] == es[j]);
        }
        assert forall|i: int| 0 <= i < p.len() implies #[trigger] p[i].weight == key_count(ks, edge_key(p[i])) by {
            assert(p[i] == es[i]);
        }
        lemma_weight_count(p, ks);
        let k = edge_key(es.last());
        let s = edge_keys(p).to_set();
        if s.contains(k) {
            let i = choose|i: int| 0 <= i < edge_keys(p).len() && edge_keys(p)[i] == k;
            assert(p[i] == es[i]);
            lemma_key_lt(k, k, k);
            assert(key_lt(edge_key(es[i]), edge_key(es[es.len() - 1])));
        }
        lemma_filter_split(ks, s, k);
        assert(edge_keys(es) =~= edge_keys(p).push(k));
        crate::graph::files::lemma_push_to_set(edge_keys(p), k);
    }
}

/// The file edges weigh no more than the relationships.
proof fn lemma_file_edges_bound(es: Seq<GraphEdge>, rels: Seq<Relationship>, ids: Seq<Seq<char>>)
    requires
        aggregates(es, kept_keys(rels, ids)),
    ensures
        edges_weight(es) <= rels.len(),
        es.len() <= rels.len(),
{
    let ks = kept_keys(rels, ids);
    lemma_weight_count(es, ks);
    ks.filter_lemma(in_keys(edge_keys(es).to_set()));
    rels.filter_lemma(kept_pred(ids));
    assert(edge_keys(es).no_duplicates()) by {
        assert forall|i: int, j: int| 0 <= i < edge_keys(es).len() && 0 <= j < edge_keys(es).len() && i != j implies edge_keys(
            es,
        )[i] != edge_keys(es)[j] by {
            lemma_key_lt(edge_key(es[i]), edge_key(es[j]), edge_key(es[j]));
            lemma_key_lt(edge_key(es[j]), edge_key(es[i]), edge_key(es[i]));
            if i < j {
                assert(key_lt(edge_key(es[i]), edge_key(es[j])));
            } else {
                assert(key_lt(edge_key(es[j]), edge_key(es[i])));
            }
        }
    }
    edge_keys(es).unique_seq_to_set();
    ks.lemma_cardinality_of_set();
}

proof fn lemma_module_items_len(fe: Seq<GraphEdge>, owners: Seq<(String, String)>, ids: Seq<Seq<char>>)
    ensures
        module_items(fe, owners, ids).len() <= fe.len(),
    decreases fe.len(),
{
    if fe.len() > 0 {
        lemma_module_items_len(fe.drop_last(), owners, ids);
    }
}

/// The module edges are no more than the file edges.
proof fn lemma_module_edges_bound(me: Seq<GraphEdge>, fe: Seq<GraphEdge>, owners: Seq<(String, String)>, ids: Seq<Seq<char>>)
    requires
        module_aggregates(me, module_items(fe, owners, ids)),
    ensures
        me.len() <= fe.len(),
{
    let items = module_items(fe, owners, ids);
    assert(edge_keys(me).no_duplicates()) by {
        assert forall|i: int, j: int| 0 <= i < edge_keys(me).len() && 0 <= j < edge_keys(me).len() && i != j implies edge_keys(
            me,
        )[i] != edge_keys(me)[j] by {
            lemma_key_lt(edge_key(me[i]), edge_key(me[j]), edge_key(me[j]));
            lemma_key_lt(edge_key(me[j]), edge_key(me[i]), edge_key(me[i]));
            if i < j {
                assert(key_lt(edge_key(me[i]), edge_key(me[j])));
            } else {
                assert(key_lt(edge_key(me[j]), edge_key(me[i])));
            }
        }
    }
    assert(edge_keys(me).to_set() == item_keys(items).to_set());
    edge_keys(me).unique_seq_to_set();
    item_keys(items).lemma_cardinality_of_set();
    lemma_module_items_len(fe, owners, ids);
}

/// Aggregate counts of a graph analysis.
#[derive(Debug, Clone, Copy, PartialEq, Eq)]
pub struct GraphStats {
    /// Number of file nodes.
    pub node_count: usize,
    /// Number of file edges.
    pub edge_count: usize,
    /// Number of module nodes.
    pub module_count: usize,
    /// Number of module edges.
    pub module_edge_count: usize,
    /// Number of entry points in the graph.
    pub entrypoint_count: usize,
    /// Number of file cycles.
    pub file_cycle_count: usize,
    /// Number of module cycles.
    pub module_cycle_count: usize,
    /// Size of the largest weakly connected component of the file graph.
    pub largest_connected_component: usize,
    /// Depth of the deepest dependency chain.
    pub maximum_depth: usize,
    /// Number of files reachable from the entry points.
    pub reached_count: usize,
    /// Sum of the breadth-first depths of the reachable files.
    pub depth_total: u128,
}

/// Everything the graph analysis produces.
#[derive(Debug, Clone)]
pub struct AnalysisResult {
    /// The file graph.
    pub file_graph: FileGraph,
    /// The module graph.
    pub module_graph: ModuleGraph,
    /// Cycles among files.
    pub file_cycles: Vec<Cycle>,
    /// Cycles among modules.
    pub module_cycles: Vec<Cycle>,
    /// File and module cycles together, by identifier.
    pub cycles: Vec<Cycle>,
    /// Reachability from the entry points.
    pub reachability: Reachability,
    /// Degrees of the files.
    pub file_metrics: Vec<EdgeMetrics>,
    /// Degrees of the modules.
    pub module_metrics: Vec<EdgeMetrics>,
    /// The most connected files.
    pub central_files: Vec<CentralNode>,
    /// The most connected modules.
    pub central_modules: Vec<CentralNode>,
    /// The longest dependency chains.
    pub dependency_chains: Vec<DependencyChain>,
    /// Aggregate counts.
    pub statistics: GraphStats,
    /// Build warnings.
    pub warnings: Vec<GraphWarning>,
}

fn clone_strings(v: &Vec<String>) -> (r: Vec<String>)
    ensures
        views_of(r@) == views_of(v@),
{
    let mut out: Vec<String> = Vec::new();
    let mut i: usize = 0;
    while i < v.len()
        invariant
            i <= v.len(),
            views_of(out@) == views_of(v@).take(i as int),
        decreases v.len() - i,
    {
        let ghost b = views_of(out@);
        out.push(crate::text::to_owned_string(v[i].as_str()));
        assert(views_of(out@) =~= b.push(v@[i as int]@));
        assert(views_of(v@).take(i + 1) =~= views_of(v@).take(i as int).push(v@[i as int]@));
        i = i + 1;
    }
    assert(views_of(v@).take(v@.len() as int) =~= views_of(v@));
    out
}

fn clone_cycle(c: &Cycle) -> (r: Cycle)
    ensures
        cycle_view(r) == cycle_view(*c),
        r.id@ == c.id@,
{
    Cycle {
        id: crate::text::to_owned_string(c.id.as_str()),
        size: c.size,
        files: clone_strings(&c.files),
        modules: clone_strings(&c.modules),
    }
}

/// The identifiers of file nodes.
pub open spec fn node_ids(nodes: Seq<crate::graph::models::FileNode>) -> Seq<Seq<char>> {
    Seq::new(nodes.len(), |i: int| nodes[i].id@)
}

/// The identifiers of module nodes.
pub open spec fn module_ids(nodes: Seq<ModuleNode>) -> Seq<Seq<char>> {
    Seq::new(nodes.len(), |i: int| nodes[i].id@)
}

/// Module edges as (source position, target position) among `ids`.
pub open spec fn module_ends(edges: Seq<GraphEdge>, ids: Seq<Seq<char>>) -> Seq<(usize, usize)> {
    edges.map_values(|e: GraphEdge| (last_pos(ids, e.source@) as usize, last_pos(ids, e.target@) as usize))
}

/// Whether `ow` maps every file to the module owning it first in the module
/// order `sm`.
pub open spec fn owners_ok(ow: Seq<(String, String)>, sm: Seq<Module>) -> bool {
    forall|f: Seq<char>| pair_lookup(ow, f) == first_owner(sm, f)
}

/// Whether the file nodes are the files in path order, each with its owning
/// module (by `ow`) and its entry-point flag.
pub open spec fn file_nodes_ok(nodes: Seq<FileNode>, files: Seq<FileEntry>, ow: Seq<(String, String)>, eps: Seq<EntryPoint>) -> bool {
    exists|sf: Seq<FileEntry>|
        #![trigger files_sorted(sf)]
        sf.to_multiset() == files.to_multiset() && files_sorted(sf) && nodes.len() == sf.len() && forall|i: int|
            0 <= i < sf.len() ==> node_of(#[trigger] nodes[i], sf[i], ow, eps)
}

/// Whether the module nodes are the modules in module order.
pub open spec fn module_nodes_ok(nodes: Seq<ModuleNode>, modules: Seq<Module>) -> bool {
    exists|sm: Seq<Module>|
        #![trigger modules_sorted(sm)]
        sm.to_multiset() == modules.to_multiset() && modules_sorted(sm) && nodes.len() == sm.len() && forall|i: int|
            0 <= i < sm.len() ==> module_node_of(#[trigger] nodes[i], sm[i])
}

/// Whether `r` holds the ten most central nodes (fewer when there are fewer)
/// of the nodes whose degrees are `metrics`.
pub open spec fn central_ok(r: Seq<CentralNode>, metrics: Seq<EdgeMetrics>) -> bool {
    crate::graph::analysis::central_pick(r, metrics, 10)
}

/// Whether `metrics` are the degrees of every node, in identifier order.
pub open spec fn metrics_ok(metrics: Seq<EdgeMetrics>, names: Seq<Seq<char>>, edges: Seq<(usize, usize)>) -> bool {
    &&& metrics.map_values(|m: EdgeMetrics| metric_view(m)).to_multiset() == Seq::new(
        names.len(),
        |i: int| degrees_of(names, edges, i),
    ).to_multiset()
    &&& sorted_by(metrics, |a: EdgeMetrics, b: EdgeMetrics| lex_le(a.id@, b.id@, false))
}

/// Whether the depth figures are those of breadth-first depths from the
/// start nodes.
pub open spec fn depth_figures_ok(n: nat, edges: Seq<(usize, usize)>, starts: Set<usize>, reached: usize, total: u128) -> bool {
    exists|d: Seq<Option<usize>>| #[trigger] depths_ok(edges, n, starts, d) && reached == count_some(d) && total == depth_sum(d)
}

/// Whether `r` are the ten best of the longest chains from the start nodes.
pub open spec fn chains_figures_ok(edges: Seq<(usize, usize)>, names: Seq<Seq<char>>, starts: Seq<usize>, r: Seq<DependencyChain>) -> bool {
    exists|all: Seq<DependencyChain>| #[trigger] chains_ok(edges, names, starts, all) && top_chains(all, r)
}

/// Builds and analyses dependency graphs from the files, entry points,
/// relationships and modules of a repository analysis.
pub struct DependencyGraphBuilder<'a> {
    files: &'a Vec<FileEntry>,
    entry_points: &'a Vec<EntryPoint>,
    relationships: &'a Vec<Relationship>,
    modules: &'a Vec<Module>,
}

impl<'a> DependencyGraphBuilder<'a> {
    /// A builder over the parts of a repository analysis.
    pub fn new(
        files: &'a Vec<FileEntry>,
        entry_points: &'a Vec<EntryPoint>,
        relationships: &'a Vec<Relationship>,
        modules: &'a Vec<Module>,
    ) -> (r: Self)
        ensures
            r.files() == files@,
            r.entry_points() == entry_points@,
            r.relationships() == relationships@,
            r.modules() == modules@,
    {
        DependencyGraphBuilder { files, entry_points, relationships, modules }
    }

    /// The files analysed.
    pub closed spec fn files(&self) -> Seq<FileEntry> {
        self.files@
    }

    /// The entry points analysed.
    pub closed spec fn entry_points(&self) -> Seq<EntryPoint> {
        self.entry_points@
    }

    /// The relationships analysed.
    pub closed spec fn relationships(&self) -> Seq<Relationship> {
        self.relationships@
    }

    /// The modules analysed.
    pub closed spec fn modules(&self) -> Seq<Module> {
        self.modules@
    }

    /// Builds the file and module graphs and runs every analysis pass.
    pub fn build(&self) -> (r: AnalysisResult)
        requires
            self.files().len() < u32::MAX,
            self.relationships().len() < u32::MAX,
            self.modules().len() < u32::MAX,
            2 * self.relationships().len() <= usize::MAX,
        ensures
            r.statistics.node_count == r.file_graph.nodes@.len(),
            r.statistics.edge_count == r.file_graph.edges@.len(),
            r.statistics.module_count == r.module_graph.nodes@.len(),
            r.statistics.module_edge_count == r.module_graph.edges@.len(),
            r.statistics.entrypoint_count == r.reachability.entrypoints@.len(),
            r.statistics.file_cycle_count == r.file_cycles@.len(),
            r.statistics.module_cycle_count == r.module_cycles@.len(),
            r.statistics.maximum_depth == (if r.dependency_chains@.len() > 0 {
                r.dependency_chains@[0].depth
            } else {
                0
            }),
            r.statistics.largest_connected_component == largest_component(
                r.file_graph.nodes@.len(),
                kept_ends(self.relationships(), node_ids(r.file_graph.nodes@)),
            ),
            views_of(r.reachability.reachable_nodes@).to_set() == reachable_names(
                node_ids(r.file_graph.nodes@),
                kept_ends(self.relationships(), node_ids(r.file_graph.nodes@)),
                views_of(r.reachability.entrypoints@),
            ),
            views_of(r.reachability.entrypoints@).to_set() == crate::graph::files::entry_paths(self.entry_points()).to_set().filter(
                |p: Seq<char>| node_ids(r.file_graph.nodes@).contains(p),
            ),
            exists|sm: Seq<Module>, ow: Seq<(String, String)>|
                #![trigger modules_sorted(sm), owners_ok(ow, sm)]
                sm.to_multiset() == self.modules().to_multiset() && modules_sorted(sm) && owners_ok(ow, sm) && file_nodes_ok(
                    r.file_graph.nodes@,
                    self.files(),
                    ow,
                    self.entry_points(),
                ) && module_aggregates(
                    r.module_graph.edges@,
                    module_items(r.file_graph.edges@, ow, module_ids(r.module_graph.nodes@)),
                ),
            module_nodes_ok(r.module_graph.nodes@, self.modules()),
            aggregates(r.file_graph.edges@, kept_keys(self.relationships(), node_ids(r.file_graph.nodes@))),
            r.warnings@.map_values(|w: GraphWarning| warning_view(w)) == file_graph_warnings(
                self.relationships().filter(unresolved_pred()).len(),
                self.relationships().filter(missing_pred(node_ids(r.file_graph.nodes@))).len(),
            ),
            strictly_sorted(views_of(r.reachability.entrypoints@), false),
            strictly_sorted(views_of(r.reachability.reachable_nodes@), false),
            strictly_sorted(views_of(r.reachability.unreachable_nodes@), false),
            views_of(r.reachability.unreachable_nodes@).to_set() == node_ids(r.file_graph.nodes@).to_set().difference(
                reachable_names(
                    node_ids(r.file_graph.nodes@),
                    kept_ends(self.relationships(), node_ids(r.file_graph.nodes@)),
                    views_of(r.reachability.entrypoints@),
                ),
            ),
            metrics_ok(
                r.file_metrics@,
                node_ids(r.file_graph.nodes@),
                kept_ends(self.relationships(), node_ids(r.file_graph.nodes@)),
            ),
            metrics_ok(
                r.module_metrics@,
                module_ids(r.module_graph.nodes@),
                module_ends(r.module_graph.edges@, module_ids(r.module_graph.nodes@)),
            ),
            central_ok(r.central_files@, r.file_metrics@),
            central_ok(r.central_modules@, r.module_metrics@),
            depth_figures_ok(
                r.file_graph.nodes@.len(),
                kept_ends(self.relationships(), node_ids(r.file_graph.nodes@)),
                entry_starts(node_ids(r.file_graph.nodes@), views_of(r.reachability.entrypoints@)).to_set(),
                r.statistics.reached_count,
                r.statistics.depth_total,
            ),
            chains_figures_ok(
                kept_ends(self.relationships(), node_ids(r.file_graph.nodes@)),
                node_ids(r.file_graph.nodes@),
                entry_starts(node_ids(r.file_graph.nodes@), views_of(r.reachability.entrypoints@)),
                r.dependency_chains@,
            ),
            cycles_found(
                node_ids(r.file_graph.nodes@),
                kept_ends(self.relationships(), node_ids(r.file_graph.nodes@)),
                true,
                r.file_cycles@.map_values(|c: Cycle| cycle_view(c)),
            ),
            cycles_found(
                module_ids(r.module_graph.nodes@),
                module_ends(r.module_graph.edges@, module_ids(r.module_graph.nodes@)),
                false,
                r.module_cycles@.map_values(|c: Cycle| cycle_view(c)),
            ),
            r.cycles@.map_values(|c: Cycle| cycle_view(c)).to_multiset() == (r.file_cycles@ + r.module_cycles@).map_values(
                |c: Cycle| cycle_view(c),
            ).to_multiset(),
            cycles_sorted(r.cycles@),
    {
        let owners = crate::graph::construct::module_ownership(self.modules);
        let fd = build_file_graph(self.files, self.entry_points, self.relationships, &owners);
        let ghost ids = views_of(fd.ids@);
        proof {
            lemma_file_edges_bound(fd.edges@, self.relationships@, ids);
            self.relationships@.filter_lemma(kept_pred(ids));
            assert(ids =~= node_ids(fd.nodes@));
        }
        let md = build_module_graph(self.modules, &fd.edges, &owners);
        proof {
            lemma_module_edges_bound(md.edges@, fd.edges@, owners@, views_of(md.ids@));
        }
        let reachability = analyze_reachability(&fd.graph, &fd.ids, &fd.entrypoints, &fd.ids);
        let file_cycles = detect_file_cycles(&fd.graph);
        let module_cycles = detect_module_cycles(&md.graph);
        let mut merged: Vec<Cycle> = Vec::new();
        let mut i: usize = 0;
        while i < file_cycles.len()
            invariant
                i <= file_cycles.len(),
                merged@.map_values(|c: Cycle| cycle_view(c)) == file_cycles@.take(i as int).map_values(|c: Cycle| cycle_view(c)),
            decreases file_cycles.len() - i,
        {
            let c = clone_cycle(&file_cycles[i]);
            let ghost old_m = merged@;
            merged.push(c);
            assert(merged@ == old_m.push(c));
            assert(merged@.map_values(|c: Cycle| cycle_view(c)) =~= old_m.map_values(|c: Cycle| cycle_view(c)).push(cycle_view(c)));
            assert(file_cycles@.take(i + 1) =~= file_cycles@.take(i as int).push(file_cycles@[i as int]));
            assert(file_cycles@.take(i + 1).map_values(|c: Cycle| cycle_view(c)) =~= file_cycles@.take(i as int).map_values(|c: Cycle| cycle_view(c)).push(cycle_view(file_cycles@[i as int])));
            i = i + 1;
        }
        let mut j: usize = 0;
        assert(file_cycles@.take(file_cycles@.len() as int) =~= file_cycles@);
        while j < module_cycles.len()
            invariant
                j <= module_cycles.len(),
                merged@.map_values(|c: Cycle| cycle_view(c)) == (file_cycles@ + module_cycles@.take(j as int)).map_values(
                    |c: Cycle| cycle_view(c),
                ),
            decreases module_cycles.len() - j,
        {
            let c = clone_cycle(&module_cycles[j]);
            let ghost old_m = merged@;
            merged.push(c);
            assert(merged@ == old_m.push(c));
            assert(merged@.map_values(|c: Cycle| cycle_view(c)) =~= old_m.map_values(|c: Cycle| cycle_view(c)).push(cycle_view(c)));
            let ghost pre = file_cycles@ + module_cycles@.take(j as int);
            assert(file_cycles@ + module_cycles@.take(j + 1) =~= pre.push(module_cycles@[j as int]));
            assert(pre.push(module_cycles@[j as int]).map_values(|c: Cycle| cycle_view(c)) =~= pre.map_values(|c: Cycle| cycle_view(c)).push(cycle_view(module_cycles@[j as int])));
            j = j + 1;
        }
        assert(module_cycles@.take(module_cycles@.len() as int) =~= module_cycles@);
        let ghost unsorted = merged@;
        let before = |a: &Cycle, b: &Cycle| -> (r: bool)
            ensures
                r == lex_le(a.id@, b.id@, false),
            { compare_str(a.id.as_str(), b.id.as_str(), false) <= 0 };
        proof {
            lemma_key_preorder(|c: Cycle| c.id@, false);
            assert((|a: Cycle, b: Cycle| lex_le((|c: Cycle| c.id@)(a), (|c: Cycle| c.id@)(b), false)) =~= (|a: Cycle, b: Cycle| lex_le(a.id@, b.id@, false)));
        }
        let cycles = stable_sort(merged, &before, Ghost(|a: Cycle, b: Cycle| lex_le(a.id@, b.id@, false)));
        proof {
            crate::repo::scan::lemma_map_multiset(unsorted, cycles@, |c: Cycle| cycle_view(c));
        }
        let file_metrics = degree_metrics(&fd.graph);
        let module_metrics = degree_metrics(&md.graph);
        let central_files = central_nodes(&file_metrics, 10);
        let central_modules = central_nodes(&module_metrics, 10);
        let depth = depth_analysis(&fd.graph, &fd.ids, &fd.entrypoints);
        let largest = largest_weak_component(&fd.graph);
        let statistics = GraphStats {
            node_count: fd.nodes.len(),
            edge_count: fd.edges.len(),
            module_count: md.nodes.len(),
            module_edge_count: md.edges.len(),
            entrypoint_count: reachability.entrypoints.len(),
            file_cycle_count: file_cycles.len(),
            module_cycle_count: module_cycles.len(),
            largest_connected_component: largest,
            maximum_depth: depth.maximum_depth,
            reached_count: depth.reached,
            depth_total: depth.depth_total,
        };
        proof {
            assert(views_of(reachability.entrypoints@) == views_of(fd.entrypoints@));
            assert(reachability.entrypoints@.len() == views_of(reachability.entrypoints@).len());
            let sm = choose|sm: Seq<Module>|
                #![trigger modules_sorted(sm)]
                sm.to_multiset() == self.modules@.to_multiset() && modules_sorted(sm) && forall|f: Seq<char>|
                    pair_lookup(owners@, f) == first_owner(sm, f);
            assert(owners_ok(owners@, sm));
            assert(file_nodes_ok(fd.nodes@, self.files@, owners@, self.entry_points@));
            assert(views_of(md.ids@) =~= module_ids(md.nodes@));
            assert(module_nodes_ok(md.nodes@, self.modules@));
            assert(metrics_ok(file_metrics@, node_ids(fd.nodes@), kept_ends(self.relationships@, node_ids(fd.nodes@))));
            assert(metrics_ok(module_metrics@, module_ids(md.nodes@), module_ends(md.edges@, module_ids(md.nodes@))));
            assert(central_ok(central_files@, file_metrics@));
            assert(central_ok(central_modules@, module_metrics@));
        }
        AnalysisResult {
            file_graph: FileGraph { nodes: fd.nodes, edges: fd.edges },
            module_graph: ModuleGraph { nodes: md.nodes, edges: md.edges },
            file_cycles,
            module_cycles,
            cycles,
            reachability,
            file_metrics,
            module_metrics,
            central_files,
            central_modules,
            dependency_chains: depth.chains,
            statistics,
            warnings: fd.warnings,
        }
    }
}

} // verus!
