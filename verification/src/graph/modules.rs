//! The module dependency graph: one node per module (in order of root,
//! name and kind) and one edge per pair of distinct modules whose files
//! depend on each other, weighted by the file edges between them.

use vstd::prelude::*;
use vstd::relations::sorted_by;
use crate::graph::construct::{module_id, module_id_spec, module_le, modules_sorted, pair_lookup, lookup_pair};
use crate::graph::files::{EdgeKey, edge_key, key_lt, lemma_key_lt, lemma_push_to_set};
use crate::graph::models::{EdgeKind, GraphEdge, ModuleNode, edge_kind_rank};
use crate::graph::pet::{graph_add_edge, graph_add_node, graph_edges, graph_new, graph_nodes};
use crate::order::{insert_sorted, strictly_sorted, views_of};
use crate::repo::models::{Module, ModuleKind};
use crate::text::{chars_of, push_str_chars, string_from_chars};
use petgraph::graph::DiGraph;

verus! {

/// The keys of weighted items.
pub open spec fn item_keys(items: Seq<(EdgeKey, nat)>) -> Seq<EdgeKey> {
    items.map_values(|p: (EdgeKey, nat)| p.0)
}

/// The total weight of the items with key `k`.
pub open spec fn key_total(items: Seq<(EdgeKey, nat)>, k: EdgeKey) -> nat
    decreases items.len(),
{
    if items.len() == 0 {
        0
    } else {
        key_total(items.drop_last(), k) + if items.last().0 == k {
            items.last().1
        } else {
            0nat
        }
    }
}

/// The total weight of all items.
pub open spec fn total_weight(items: Seq<(EdgeKey, nat)>) -> nat
    decreases items.len(),
{
    if items.len() == 0 {
        0
    } else {
        total_weight(items.drop_last()) + items.last().1
    }
}

proof fn lemma_key_total_le(items: Seq<(EdgeKey, nat)>, k: EdgeKey)
    ensures
        key_total(items, k) <= total_weight(items),
    decreases items.len(),
{
    if items.len() > 0 {
        lemma_key_total_le(items.drop_last(), k);
    }
}

proof fn lemma_key_total_absent(items: Seq<(EdgeKey, nat)>, k: EdgeKey)
    requires
        !item_keys(items).contains(k),
    ensures
        key_total(items, k) == 0,
    decreases items.len(),
{
    if items.len() > 0 {
        let pre = items.drop_last();
        assert(!item_keys(pre).contains(k)) by {
            if item_keys(pre).contains(k) {
                let q = choose|q: int| 0 <= q < item_keys(pre).len() && item_keys(pre)[q] == k;
                assert(item_keys(items)[q] == k);
            }
        }
        lemma_key_total_absent(pre, k);
        assert(item_keys(items)[items.len() - 1] == items.last().0);
    }
}

/// The identifier of a module edge: `source->target:module_dependency`.
pub open spec fn module_edge_id_spec(source: Seq<char>, target: Seq<char>) -> Seq<char> {
    source + "->"@ + target + ":module_dependency"@
}

fn module_edge_id(source: &str, target: &str) -> (r: String)
    ensures
        r@ == module_edge_id_spec(source@, target@),
{
    let mut v: Vec<char> = Vec::new();
    push_str_chars(&mut v, source);
    push_str_chars(&mut v, "->");
    push_str_chars(&mut v, target);
    push_str_chars(&mut v, ":module_dependency");
    string_from_chars(v.as_slice())
}

/// Whether module edges aggregate the weighted keys `items`: strictly sorted
/// by key, one edge per distinct key carrying the total weight of its items.
pub open spec fn module_aggregates(edges: Seq<GraphEdge>, items: Seq<(EdgeKey, nat)>) -> bool {
    &&& forall|i: int, j: int| 0 <= i < j < edges.len() ==> key_lt(edge_key(#[trigger] edges[i]), edge_key(#[trigger] edges[j]))
    &&& forall|i: int| 0 <= i < edges.len() ==> #[trigger] edges[i].weight == key_total(items, edge_key(edges[i]))
    &&& forall|i: int| 0 <= i < edges.len() ==> #[trigger] edges[i].id@ == module_edge_id_spec(edges[i].source@, edges[i].target@)
    &&& forall|i: int| 0 <= i < edges.len() ==> #[trigger] edges[i].kind == EdgeKind::ModuleDependency
    &&& edges.map_values(|e: GraphEdge| edge_key(e)).to_set() == item_keys(items).to_set()
}

fn compare_key(a_src: &str, a_tgt: &str, a_kind: EdgeKind, b_src: &str, b_tgt: &str, b_kind: EdgeKind) -> (r: i8)
    ensures
        r == -1 <==> key_lt((a_src@, a_tgt@, edge_kind_rank(a_kind)), (b_src@, b_tgt@, edge_kind_rank(b_kind))),
        r == 0 <==> (a_src@, a_tgt@, edge_kind_rank(a_kind)) == (b_src@, b_tgt@, edge_kind_rank(b_kind)),
        r == 1 <==> key_lt((b_src@, b_tgt@, edge_kind_rank(b_kind)), (a_src@, a_tgt@, edge_kind_rank(a_kind))),
{
    crate::graph::files::compare_key(a_src, a_tgt, a_kind, b_src, b_tgt, b_kind)
}

/// Adds `w` to the weight of the module edge from `source` to `target`.
#[verifier::rlimit(40)]
fn add_weighted(edges: &mut Vec<GraphEdge>, source: &str, target: &str, w: usize, Ghost(ks): Ghost<Seq<(EdgeKey, nat)>>)
    requires
        module_aggregates(old(edges)@, ks),
        total_weight(ks) + w <= usize::MAX,
    ensures
        module_aggregates(final(edges)@, ks.push(((source@, target@, 3int), w as nat))),
{
    let kind = EdgeKind::ModuleDependency;
    let ghost k = (source@, target@, edge_kind_rank(kind));
    let ghost nks = ks.push((k, w as nat));
    let ghost keyf = |e: GraphEdge| edge_key(e);
    proof {
        assert forall|x: EdgeKey| #[trigger] key_total(nks, x) == key_total(ks, x) + if x == k { w as nat } else { 0nat } by {
            assert(nks.drop_last() =~= ks);
        }
        assert forall|x: EdgeKey| #[trigger] key_total(ks, x) <= total_weight(ks) by {
            lemma_key_total_le(ks, x);
        }
        lemma_push_to_set(ks.map_values(|p: (EdgeKey, nat)| p.0), k);
        assert(nks.map_values(|p: (EdgeKey, nat)| p.0) =~= ks.map_values(|p: (EdgeKey, nat)| p.0).push(k));
    }
    let mut p: usize = 0;
    let mut done = false;
    while !done && p < edges.len()
        invariant
            p <= edges.len(),
            k == (source@, target@, edge_kind_rank(kind)),
            module_aggregates(edges@, ks),
            forall|j: int| 0 <= j < p ==> key_lt(edge_key(#[trigger] edges@[j]), k),
            done ==> p < edges.len() && !key_lt(edge_key(edges@[p as int]), k),
        decreases edges.len() - p, if done { 0int } else { 1int },
    {
        let e = &edges[p];
        let c = compare_key(e.source.as_str(), e.target.as_str(), e.kind, source, target, kind);
        if c == -1 {
            p = p + 1;
        } else {
            done = true;
        }
    }
    let ghost old_edges = edges@;
    if p < edges.len() && compare_key(edges[p].source.as_str(), edges[p].target.as_str(), edges[p].kind, source, target, kind) == 0 {
        let e = &edges[p];
        assert(edge_key(old_edges[p as int]) == k);
        let updated = GraphEdge {
            id: e.id.clone(),
            source: e.source.clone(),
            target: e.target.clone(),
            kind: e.kind,
            weight: e.weight + w,
        };
        edges.set(p, updated);
        proof {
            assert forall|i: int| 0 <= i < edges@.len() implies #[trigger] edges@[i].weight == key_total(nks, edge_key(edges@[i])) by {
                if i != p {
                    assert(edges@[i] == old_edges[i]);
                    lemma_key_lt(edge_key(old_edges[i]), k, k);
                    if i < p {
                        assert(key_lt(edge_key(old_edges[i]), edge_key(old_edges[p as int])));
                    } else {
                        assert(key_lt(edge_key(old_edges[p as int]), edge_key(old_edges[i])));
                    }
                }
            }
            assert forall|i: int, j: int| 0 <= i < j < edges@.len() implies key_lt(edge_key(#[trigger] edges@[i]), edge_key(#[trigger] edges@[j])) by {
                assert(edge_key(edges@[i]) == edge_key(old_edges[i]));
                assert(edge_key(edges@[j]) == edge_key(old_edges[j]));
            }
            assert(edges@.map_values(keyf) =~= old_edges.map_values(keyf));
            assert(old_edges.map_values(keyf)[p as int] == k);
            assert(item_keys(ks).to_set().contains(k));
            assert(item_keys(ks).to_set().insert(k) =~= item_keys(ks).to_set());
        }
    } else {
        proof {
            if p < old_edges.len() {
                lemma_key_lt(edge_key(old_edges[p as int]), k, k);
                assert(key_lt(k, edge_key(old_edges[p as int])));
            }
            assert(!item_keys(ks).to_set().contains(k)) by {
                if item_keys(ks).to_set().contains(k) {
                    assert(old_edges.map_values(keyf).to_set().contains(k));
                    let q = choose|q: int| 0 <= q < old_edges.len() && old_edges.map_values(keyf)[q] == k;
                    assert(edge_key(old_edges[q]) == k);
                    lemma_key_lt(k, k, k);
                    if q < p {
                    } else if q == p {
                    } else {
                        lemma_key_lt(k, edge_key(old_edges[p as int]), edge_key(old_edges[q]));
                    }
                }
            }
        }
        let id = module_edge_id(source, target);
        let e = GraphEdge {
            id,
            source: crate::text::to_owned_string(source),
            target: crate::text::to_owned_string(target),
            kind,
            weight: w,
        };
        edges.insert(p, e);
        proof {
            assert(edges@ == old_edges.insert(p as int, e));
            assert(edge_key(e) == k);
            assert(!item_keys(ks).contains(k)) by {
                if item_keys(ks).contains(k) {
                    let q = choose|q: int| 0 <= q < item_keys(ks).len() && item_keys(ks)[q] == k;
                    assert(item_keys(ks).to_set().contains(k));
                }
            }
            lemma_key_total_absent(ks, k);
            assert forall|i: int| 0 <= i < edges@.len() implies #[trigger] edges@[i].weight == key_total(nks, edge_key(edges@[i])) by {
                if i < p {
                    assert(edges@[i] == old_edges[i]);
                    lemma_key_lt(edge_key(old_edges[i]), k, k);
                } else if i > p {
                    assert(edges@[i] == old_edges[i - 1]);
                    lemma_key_lt(k, edge_key(old_edges[p as int]), edge_key(old_edges[i - 1]));
                    lemma_key_lt(edge_key(old_edges[i - 1]), k, k);
                }
            }
            assert forall|i: int, j: int| 0 <= i < j < edges@.len() implies key_lt(edge_key(#[trigger] edges@[i]), edge_key(#[trigger] edges@[j])) by {
                if j < p {
                } else if j == p {
                    assert(edges@[i] == old_edges[i]);
                } else if i < p {
                    assert(edges@[i] == old_edges[i]);
                    assert(edges@[j] == old_edges[j - 1]);
                    lemma_key_lt(edge_key(old_edges[i]), k, edge_key(old_edges[p as int]));
                    if j - 1 > p {
                        lemma_key_lt(edge_key(old_edges[i]), edge_key(old_edges[p as int]), edge_key(old_edges[j - 1]));
                    }
                    lemma_key_lt(edge_key(old_edges[i]), k, edge_key(old_edges[j - 1]));
                } else if i == p {
                    assert(edges@[j] == old_edges[j - 1]);
                    if j - 1 > p {
                        lemma_key_lt(k, edge_key(old_edges[p as int]), edge_key(old_edges[j - 1]));
                    }
                } else {
                    assert(edges@[i] == old_edges[i - 1]);
                    assert(edges@[j] == old_edges[j - 1]);
                }
            }
            assert forall|i: int| 0 <= i < edges@.len() implies #[trigger] edges@[i].id@ == module_edge_id_spec(edges@[i].source@, edges@[i].target@) by {
                if i < p {
                    assert(edges@[i] == old_edges[i]);
                } else if i > p {
                    assert(edges@[i] == old_edges[i - 1]);
                }
            }
            assert forall|i: int| 0 <= i < edges@.len() implies #[trigger] edges@[i].kind == EdgeKind::ModuleDependency by {
                if i < p {
                    assert(edges@[i] == old_edges[i]);
                } else if i > p {
                    assert(edges@[i] == old_edges[i - 1]);
                }
            }
            assert(edges@.map_values(keyf) =~= old_edges.map_values(keyf).insert(p as int, k));
            assert(edges@.map_values(keyf).to_set() =~= old_edges.map_values(keyf).to_set().insert(k)) by {
                let a = old_edges.map_values(keyf);
                let b = edges@.map_values(keyf);
                assert forall|x: EdgeKey| b.to_set().contains(x) <==> a.to_set().insert(k).contains(x) by {
                    if b.contains(x) {
                        let q = choose|q: int| 0 <= q < b.len() && b[q] == x;
                        if q < p {
                            assert(a[q] == x);
                        } else if q > p {
                            assert(a[q - 1] == x);
                        }
                    }
                    if a.contains(x) {
                        let q = choose|q: int| 0 <= q < a.len() && a[q] == x;
                        if q < p {
                            assert(b[q] == x);
                        } else {
                            assert(b[q + 1] == x);
                        }
                    }
                    if x == k {
                        assert(b[p as int] == x);
                    }
                }
            }
        }
    }
}

/// The lowercase name of a module kind.
pub open spec fn module_kind_label(k: ModuleKind) -> Seq<char> {
    match k {
        ModuleKind::Feature => "feature"@,
        ModuleKind::Layer => "layer"@,
        ModuleKind::Package => "package"@,
    }
}

/// Whether `n` is the node of module `m`.
pub open spec fn module_node_of(n: ModuleNode, m: Module) -> bool {
    &&& n.id@ == module_id_spec(m.root@, m.name@)
    &&& n.name@ == m.name@
    &&& n.root@ == m.root@
    &&& n.kind@ == module_kind_label(m.kind)
    &&& strictly_sorted(views_of(n.files@), false)
    &&& views_of(n.files@).to_set() == views_of(m.files@).to_set()
}

/// Whether a file edge joins two distinct modules that are nodes of the graph.
pub open spec fn crosses(e: GraphEdge, owners: Seq<(String, String)>, ids: Seq<Seq<char>>) -> bool {
    match (pair_lookup(owners, e.source@), pair_lookup(owners, e.target@)) {
        (Some(a), Some(b)) => a != b && ids.contains(a) && ids.contains(b),
        _ => false,
    }
}

/// The weighted module key of a crossing file edge.
pub open spec fn module_item(e: GraphEdge, owners: Seq<(String, String)>) -> (EdgeKey, nat) {
    ((pair_lookup(owners, e.source@)->0, pair_lookup(owners, e.target@)->0, 3int), e.weight as nat)
}

/// The weighted module keys of the crossing file edges, in order.
pub open spec fn module_items(fe: Seq<GraphEdge>, owners: Seq<(String, String)>, ids: Seq<Seq<char>>) -> Seq<(EdgeKey, nat)>
    decreases fe.len(),
{
    if fe.len() == 0 {
        Seq::empty()
    } else if crosses(fe.last(), owners, ids) {
        module_items(fe.drop_last(), owners, ids).push(module_item(fe.last(), owners))
    } else {
        module_items(fe.drop_last(), owners, ids)
    }
}

/// The total weight of file edges.
pub open spec fn edges_weight(fe: Seq<GraphEdge>) -> nat
    decreases fe.len(),
{
    if fe.len() == 0 {
        0
    } else {
        edges_weight(fe.drop_last()) + fe.last().weight as nat
    }
}

proof fn lemma_items_weight(fe: Seq<GraphEdge>, owners: Seq<(String, String)>, ids: Seq<Seq<char>>)
    ensures
        total_weight(module_items(fe, owners, ids)) <= edges_weight(fe),
    decreases fe.len(),
{
    if fe.len() > 0 {
        lemma_items_weight(fe.drop_last(), owners, ids);
        let pre = module_items(fe.drop_last(), owners, ids);
        if crosses(fe.last(), owners, ids) {
            assert(pre.push(module_item(fe.last(), owners)).drop_last() =~= pre);
        }
    }
}

proof fn lemma_items_facts(fe: Seq<GraphEdge>, owners: Seq<(String, String)>, ids: Seq<Seq<char>>)
    ensures
        module_items(fe, owners, ids).len() <= fe.len(),
        forall|x: EdgeKey| item_keys(module_items(fe, owners, ids)).contains(x) ==> ids.contains(x.0) && ids.contains(x.1),
    decreases fe.len(),
{
    if fe.len() > 0 {
        lemma_items_facts(fe.drop_last(), owners, ids);
        let pre = module_items(fe.drop_last(), owners, ids);
        if crosses(fe.last(), owners, ids) {
            let it = module_item(fe.last(), owners);
            assert(item_keys(pre.push(it)) =~= item_keys(pre).push(it.0));
            assert forall|x: EdgeKey| item_keys(pre.push(it)).contains(x) implies ids.contains(x.0) && ids.contains(x.1) by {
                let q = choose|q: int| 0 <= q < item_keys(pre.push(it)).len() && item_keys(pre.push(it))[q] == x;
                if q < pre.len() {
                    assert(item_keys(pre)[q] == x);
                    assert(item_keys(pre).contains(x));
                } else {
                    assert(item_keys(pre.push(it))[pre.len() as int] == it.0);
                    assert(x == it.0);
                    let e = fe.last();
                    assert(crosses(e, owners, ids));
                    match (pair_lookup(owners, e.source@), pair_lookup(owners, e.target@)) {
                        (Some(a), Some(b)) => {
                            assert(x.0 == a);
                            assert(x.1 == b);
                        },
                        _ => {},
                    }
                }
            }
        }
    }
}

/// Whether both ends of every edge are nodes.
pub open spec fn ends_in(edges: Seq<GraphEdge>, ids: Seq<Seq<char>>) -> bool {
    forall|i: int| 0 <= i < edges.len() ==> ids.contains(#[trigger] edges[i].source@) && ids.contains(edges[i].target@)
}

/// Module edges are no more than the crossing file edges, and their ends
/// are module nodes.
proof fn lemma_edges_bounded(edges: Seq<GraphEdge>, fe: Seq<GraphEdge>, owners: Seq<(String, String)>, ids: Seq<Seq<char>>)
    requires
        module_aggregates(edges, module_items(fe, owners, ids)),
    ensures
        edges.len() <= fe.len(),
        ends_in(edges, ids),
{
    let items = module_items(fe, owners, ids);
    let ek = edges.map_values(|e: GraphEdge| edge_key(e));
    lemma_items_facts(fe, owners, ids);
    assert(ek.no_duplicates()) by {
        assert forall|i: int, j: int| 0 <= i < ek.len() && 0 <= j < ek.len() && i != j implies ek[i] != ek[j] by {
            if i < j {
                lemma_key_lt(ek[i], ek[j], ek[j]);
                assert(key_lt(edge_key(edges[i]), edge_key(edges[j])));
            } else {
                lemma_key_lt(ek[j], ek[i], ek[i]);
                assert(key_lt(edge_key(edges[j]), edge_key(edges[i])));
            }
        }
    }
    ek.unique_seq_to_set();
    item_keys(items).lemma_cardinality_of_set();
    assert forall|i: int| 0 <= i < edges.len() implies ids.contains(#[trigger] edges[i].source@) && ids.contains(edges[i].target@) by {
        assert(ek[i] == edge_key(edges[i]));
        assert(ek.to_set().contains(ek[i]));
        assert(item_keys(items).to_set().contains(ek[i]));
    }
}

proof fn lemma_edges_weight_prefix(fe: Seq<GraphEdge>, i: int)
    requires
        0 <= i <= fe.len(),
    ensures
        edges_weight(fe.take(i)) <= edges_weight(fe),
    decreases fe.len() - i,
{
    if i < fe.len() {
        lemma_edges_weight_prefix(fe, i + 1);
        assert(fe.take(i + 1).drop_last() =~= fe.take(i));
    } else {
        assert(fe.take(i) =~= fe);
    }
}

/// The module graph and its serialized form.
pub struct ModuleGraphData {
    /// Directed module graph.
    pub graph: DiGraph<String, EdgeKind>,
    /// Module nodes, in order of root, name and kind.
    pub nodes: Vec<ModuleNode>,
    /// Serialized module edges, sorted by source and target.
    pub edges: Vec<GraphEdge>,
    /// Module identifiers by node index.
    pub ids: Vec<String>,
}

/// The lowercase name of a module kind.
fn module_kind_name(k: ModuleKind) -> (r: &'static str)
    ensures
        r@ == module_kind_label(k),
{
    match k {
        ModuleKind::Feature => "feature",
        ModuleKind::Layer => "layer",
        ModuleKind::Package => "package",
    }
}

/// The files of a module, sorted and without repeats.
fn sorted_unique(files: &Vec<String>) -> (r: Vec<String>)
    ensures
        strictly_sorted(views_of(r@), false),
        views_of(r@).to_set() == views_of(files@).to_set(),
{
    let mut out: Vec<String> = Vec::new();
    let mut i: usize = 0;
    assert(views_of(out@).to_set() =~= views_of(files@).take(0).to_set());
    while i < files.len()
        invariant
            i <= files.len(),
            strictly_sorted(views_of(out@), false),
            views_of(out@).to_set() == views_of(files@).take(i as int).to_set(),
        decreases files.len() - i,
    {
        insert_sorted(&mut out, files[i].clone(), false);
        proof {
            assert(views_of(files@).take(i + 1) =~= views_of(files@).take(i as int).push(files@[i as int]@));
            lemma_push_to_set(views_of(files@).take(i as int), files@[i as int]@);
        }
        i = i + 1;
    }
    assert(views_of(files@).take(files@.len() as int) =~= views_of(files@));
    out
}

/// Builds the module dependency graph: a node per module in order of root,
/// name and kind (its files sorted without repeats), and an edge per pair
/// of distinct modules owning the two ends of some file edge, weighted by
/// the total weight of those file edges.
pub fn build_module_graph(
    modules: &Vec<Module>,
    file_edges: &Vec<GraphEdge>,
    module_by_file: &Vec<(String, String)>,
) -> (r: ModuleGraphData)
    requires
        modules@.len() < u32::MAX,
        file_edges@.len() < u32::MAX,
        edges_weight(file_edges@) <= usize::MAX,
    ensures
        exists|sm: Seq<Module>|
            #![trigger modules_sorted(sm)]
            sm.to_multiset() == modules@.to_multiset() && modules_sorted(sm) && r.nodes@.len() == sm.len() && forall|i: int|
                0 <= i < sm.len() ==> module_node_of(#[trigger] r.nodes@[i], sm[i]),
        views_of(r.ids@) == Seq::new(r.nodes@.len(), |i: int| r.nodes@[i].id@),
        graph_nodes(r.graph) == views_of(r.ids@),
        module_aggregates(r.edges@, module_items(file_edges@, module_by_file@, views_of(r.ids@))),
        graph_edges(r.graph) == r.edges@.map_values(
            |e: GraphEdge| (crate::graph::files::last_pos(views_of(r.ids@), e.source@) as usize, crate::graph::files::last_pos(views_of(r.ids@), e.target@) as usize),
        ),
{
    broadcast use vstd::seq_lib::group_to_multiset_ensures;

    let sorted = crate::graph::construct::sorted_modules(modules);
    let ghost sm = sorted@.map_values(|m: &Module| *m);
    assert(sm.len() == modules@.len()) by {
        assert(sm.to_multiset().len() == modules@.to_multiset().len());
    }
    let mut graph = graph_new();
    let mut nodes: Vec<ModuleNode> = Vec::new();
    let mut ids: Vec<String> = Vec::new();
    let mut i: usize = 0;
    while i < sorted.len()
        invariant
            i <= sorted.len(),
            sm == sorted@.map_values(|m: &Module| *m),
            sorted@.len() == modules@.len(),
            modules@.len() < u32::MAX,
            nodes@.len() == i,
            forall|k: int| 0 <= k < i ==> module_node_of(#[trigger] nodes@[k], sm[k]),
            views_of(ids@) == Seq::new(nodes@.len(), |k: int| nodes@[k].id@),
            graph_nodes(graph) == views_of(ids@),
            graph_edges(graph) == Seq::<(usize, usize)>::empty(),
        decreases sorted.len() - i,
    {
        let m: &Module = sorted[i];
        assert(*m == sm[i as int]);
        let id = module_id(m.root.as_str(), m.name.as_str());
        let ghost idv0 = id@;
        let _index = graph_add_node(&mut graph, id.clone());
        let ghost old_ids = views_of(ids@);
        let ghost old_nodes = nodes@;
        ids.push(id.clone());
        let n = ModuleNode {
            id,
            name: m.name.clone(),
            root: m.root.clone(),
            kind: crate::text::to_owned_string(module_kind_name(m.kind)),
            files: sorted_unique(&m.files),
        };
        nodes.push(n);
        proof {
            assert forall|k: int| 0 <= k < i + 1 implies module_node_of(#[trigger] nodes@[k], sm[k]) by {
                if k < i {
                    assert(nodes@[k] == old_nodes[k]);
                }
            }
            assert(views_of(ids@) =~= old_ids.push(idv0));
            assert(nodes@[i as int].id@ == idv0);
            assert(views_of(ids@) =~= Seq::new(nodes@.len(), |k: int| nodes@[k].id@));
        }
        i = i + 1;
    }
    let ghost idv = views_of(ids@);
    let ghost fe = file_edges@;
    let ghost owners = module_by_file@;
    let mut edges: Vec<GraphEdge> = Vec::new();
    let mut j: usize = 0;
    proof {
        assert(fe.take(0) =~= Seq::<GraphEdge>::empty());
        assert(module_items(fe.take(0), owners, idv) =~= Seq::<(EdgeKey, nat)>::empty());
        assert(edges@.map_values(|e: GraphEdge| edge_key(e)).to_set() =~= Set::<EdgeKey>::empty());
        assert(item_keys(Seq::<(EdgeKey, nat)>::empty()).to_set() =~= Set::<EdgeKey>::empty());
    }
    while j < file_edges.len()
        invariant
            j <= file_edges.len(),
            fe == file_edges@,
            owners == module_by_file@,
            idv == views_of(ids@),
            edges_weight(fe) <= usize::MAX,
            module_aggregates(edges@, module_items(fe.take(j as int), owners, idv)),
        decreases file_edges.len() - j,
    {
        let e = &file_edges[j];
        let ghost pre = fe.take(j as int);
        proof {
            assert(fe.take(j + 1).drop_last() =~= pre);
            assert(fe.take(j + 1).last() == *e);
            lemma_items_weight(fe.take(j + 1), owners, idv);
            lemma_edges_weight_prefix(fe, j + 1);
        }
        let a = lookup_pair(module_by_file, e.source.as_str());
        let b = lookup_pair(module_by_file, e.target.as_str());
        match (a, b) {
            (Some(sa), Some(sb)) => {
                let same = crate::text::str_eq(sa.as_str(), sb.as_str());
                let ia = crate::graph::files::last_index_of_id(&ids, sa.as_str());
                let ib = crate::graph::files::last_index_of_id(&ids, sb.as_str());
                proof {
                    crate::graph::files::lemma_last_pos(idv, sa@);
                    crate::graph::files::lemma_last_pos(idv, sb@);
                }
                if !same && ia.is_some() && ib.is_some() {
                    proof {
                        let items = module_items(pre, owners, idv);
                        assert(module_items(fe.take(j + 1), owners, idv) == items.push(module_item(*e, owners)));
                        assert(items.push(module_item(*e, owners)).drop_last() =~= items);
                        assert(total_weight(items.push(module_item(*e, owners))) == total_weight(items) + e.weight);
                    }
                    add_weighted(&mut edges, sa.as_str(), sb.as_str(), e.weight, Ghost(module_items(pre, owners, idv)));
                }
            },
            _ => {},
        }
        j = j + 1;
    }
    assert(fe.take(fe.len() as int) =~= fe);
    proof {
        assert(module_aggregates(edges@, module_items(fe, owners, idv)));
        lemma_edges_bounded(edges@, fe, owners, idv);
        assert(edges@.len() <= fe.len());

    }
    let mut k: usize = 0;
    while k < edges.len()
        invariant
            k <= edges.len(),
            idv == views_of(ids@),
            graph_nodes(graph) == idv,
            module_aggregates(edges@, module_items(fe, owners, idv)),
            graph_edges(graph) == edges@.take(k as int).map_values(
                |e: GraphEdge| (crate::graph::files::last_pos(idv, e.source@) as usize, crate::graph::files::last_pos(idv, e.target@) as usize),
            ),
            edges@.len() < u32::MAX,
            ends_in(edges@, idv),
        decreases edges.len() - k,
    {
        let ia = crate::graph::files::last_index_of_id(&ids, edges[k].source.as_str());
        let ib = crate::graph::files::last_index_of_id(&ids, edges[k].target.as_str());
        proof {
            crate::graph::files::lemma_last_pos(idv, edges@[k as int].source@);
            crate::graph::files::lemma_last_pos(idv, edges@[k as int].target@);
        }
        assert(idv.contains(edges@[k as int].source@) && idv.contains(edges@[k as int].target@));
        match (ia, ib) {
            (Some(a), Some(b)) => {
                graph_add_edge(&mut graph, a, b, EdgeKind::ModuleDependency);
                assert(edges@.take(k + 1) =~= edges@.take(k as int).push(edges@[k as int]));
            },
            _ => {},
        }
        k = k + 1;
    }
    assert(edges@.take(edges@.len() as int) =~= edges@);
    assert(modules_sorted(sm));
    ModuleGraphData { graph, nodes, edges, ids }
}

} // verus!
