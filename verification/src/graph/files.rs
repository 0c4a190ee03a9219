//! The file dependency graph: one node per file (in path order) and one
//! edge per resolved relationship between two known files, aggregated into
//! weighted, sorted serialized edges.

use vstd::prelude::*;
use vstd::relations::sorted_by;
use crate::graph::construct::{pair_lookup, lookup_pair};
use crate::graph::models::{EdgeKind, FileNode, GraphEdge, GraphWarning, Severity, edge_kind_label, edge_kind_rank};
use crate::graph::pet::{graph_add_edge, graph_add_node, graph_edges, graph_new, graph_nodes};
use crate::order::{compare_str, insert_sorted, lemma_lex_lt_asym, lemma_lex_lt_total, lemma_lex_lt_trans, lex_le, lex_lt, stable_sort, strictly_sorted, total_preorder, views_of, lemma_key_preorder};
use crate::repo::language::language_name;
use crate::repo::models::{EntryPoint, FileEntry, Relationship, RelationshipKind, kind_rank};
use crate::text::{chars_of, decimal, decimal_string, lower, lower_chars, push_chars, push_str_chars, string_from_chars};
use petgraph::graph::DiGraph;

verus! {

/// A serialized edge key: source, target and kind rank.
pub type EdgeKey = (Seq<char>, Seq<char>, int);

/// Strict order of edge keys: by source, then target, then kind.
pub open spec fn key_lt(a: EdgeKey, b: EdgeKey) -> bool {
    lex_lt(a.0, b.0, false) || (a.0 == b.0 && (lex_lt(a.1, b.1, false) || (a.1 == b.1 && a.2 < b.2)))
}

/// `key_lt` is a strict total order.
pub proof fn lemma_key_lt(a: EdgeKey, b: EdgeKey, c: EdgeKey)
    ensures
        !key_lt(a, a),
        key_lt(a, b) ==> !key_lt(b, a),
        key_lt(a, b) && key_lt(b, c) ==> key_lt(a, c),
        a == b || key_lt(a, b) || key_lt(b, a),
{
    lemma_lex_lt_asym(a.0, b.0, false);
    lemma_lex_lt_asym(a.1, b.1, false);
    lemma_lex_lt_asym(a.0, a.0, false);
    lemma_lex_lt_asym(a.1, a.1, false);
    lemma_lex_lt_total(a.0, b.0, false);
    lemma_lex_lt_total(a.1, b.1, false);
    if key_lt(a, b) && key_lt(b, c) {
        if lex_lt(a.0, b.0, false) && lex_lt(b.0, c.0, false) {
            lemma_lex_lt_trans(a.0, b.0, c.0, false);
        }
        if a.0 == b.0 && b.0 == c.0 && lex_lt(a.1, b.1, false) && lex_lt(b.1, c.1, false) {
            lemma_lex_lt_trans(a.1, b.1, c.1, false);
        }
    }
}

/// The edge kind of a relationship kind.
pub open spec fn edge_kind_of(k: RelationshipKind) -> EdgeKind {
    match k {
        RelationshipKind::Import => EdgeKind::Import,
        RelationshipKind::Export => EdgeKind::Export,
        RelationshipKind::ModuleReference => EdgeKind::ModuleReference,
    }
}

/// The edge kind of a relationship kind.
pub fn edge_kind_from(k: RelationshipKind) -> (r: EdgeKind)
    ensures
        r == edge_kind_of(k),
{
    match k {
        RelationshipKind::Import => EdgeKind::Import,
        RelationshipKind::Export => EdgeKind::Export,
        RelationshipKind::ModuleReference => EdgeKind::ModuleReference,
    }
}

/// The key of a serialized edge.
pub open spec fn edge_key(e: GraphEdge) -> EdgeKey {
    (e.source@, e.target@, edge_kind_rank(e.kind))
}

/// The key of a relationship.
pub open spec fn rel_key(r: Relationship) -> EdgeKey {
    (r.source@, r.target@, edge_kind_rank(edge_kind_of(r.kind)))
}

/// The identifier of a serialized edge: `source->target:kind`, lowercase.
pub open spec fn edge_id_spec(source: Seq<char>, target: Seq<char>, kind: EdgeKind) -> Seq<char> {
    lower(source + "->"@ + target + ":"@) + edge_kind_label(kind)
}

/// The index of the last node named `p`, or `-1`.
pub open spec fn last_pos(ids: Seq<Seq<char>>, p: Seq<char>) -> int
    decreases ids.len(),
{
    if ids.len() == 0 {
        -1
    } else if ids.last() == p {
        ids.len() - 1
    } else {
        last_pos(ids.drop_last(), p)
    }
}

pub proof fn lemma_last_pos(ids: Seq<Seq<char>>, p: Seq<char>)
    ensures
        -1 <= last_pos(ids, p) < ids.len(),
        last_pos(ids, p) >= 0 ==> ids[last_pos(ids, p)] == p,
        last_pos(ids, p) == -1 <==> !ids.contains(p),
    decreases ids.len(),
{
    if ids.len() > 0 {
        lemma_last_pos(ids.drop_last(), p);
        if ids.last() == p {
            assert(ids[ids.len() - 1] == p);
        } else {
            if ids.contains(p) {
                let k = choose|k: int| 0 <= k < ids.len() && ids[k] == p;
                assert(ids.drop_last()[k] == p);
            }
            if ids.drop_last().contains(p) {
                let k = choose|k: int| 0 <= k < ids.drop_last().len() && ids.drop_last()[k] == p;
                assert(ids[k] == p);
            }
        }
    }
}

/// The index of the last node named `p`.
pub fn last_index_of_id(ids: &Vec<String>, p: &str) -> (r: Option<usize>)
    ensures
        match r {
            Some(k) => k as int == last_pos(views_of(ids@), p@),
            None => last_pos(views_of(ids@), p@) == -1,
        },
{
    let pv = chars_of(p);
    let mut i: usize = ids.len();
    assert(views_of(ids@).take(ids@.len() as int) =~= views_of(ids@));
    while i > 0
        invariant
            i <= ids.len(),
            pv@ == p@,
            last_pos(views_of(ids@), p@) == last_pos(views_of(ids@).take(i as int), p@),
        decreases i,
    {
        let ghost pre = views_of(ids@).take(i as int);
        assert(pre.drop_last() =~= views_of(ids@).take(i - 1));
        let c = chars_of(ids[i - 1].as_str());
        if crate::text::chars_eq(c.as_slice(), pv.as_slice()) {
            assert(pre.last() == p@);
            return Some(i - 1);
        }
        i = i - 1;
    }
    None
}

/// Whether a relationship makes a graph edge: it is resolved and both of
/// its ends are files of the graph.
pub open spec fn kept(r: Relationship, ids: Seq<Seq<char>>) -> bool {
    r.resolved && ids.contains(r.source@) && ids.contains(r.target@)
}

/// `kept` as a predicate.
pub open spec fn kept_pred(ids: Seq<Seq<char>>) -> spec_fn(Relationship) -> bool {
    |r: Relationship| kept(r, ids)
}

/// Whether a resolved relationship names a file outside the graph.
pub open spec fn missing_pred(ids: Seq<Seq<char>>) -> spec_fn(Relationship) -> bool {
    |r: Relationship| r.resolved && !(ids.contains(r.source@) && ids.contains(r.target@))
}

/// Whether a relationship is unresolved.
pub open spec fn unresolved_pred() -> spec_fn(Relationship) -> bool {
    |r: Relationship| !r.resolved
}

/// The keys of the relationships that make graph edges, in input order.
pub open spec fn kept_keys(rels: Seq<Relationship>, ids: Seq<Seq<char>>) -> Seq<EdgeKey> {
    rels.filter(kept_pred(ids)).map_values(|r: Relationship| rel_key(r))
}

/// Whether a key equals `k`.
pub open spec fn is_key(k: EdgeKey) -> spec_fn(EdgeKey) -> bool {
    |x: EdgeKey| x == k
}

/// How often `k` occurs in `ks`.
pub open spec fn key_count(ks: Seq<EdgeKey>, k: EdgeKey) -> nat {
    ks.filter(is_key(k)).len()
}

/// The graph edges of the relationships that make them, as node indices,
/// in input order.
pub open spec fn kept_ends(rels: Seq<Relationship>, ids: Seq<Seq<char>>) -> Seq<(usize, usize)> {
    rels.filter(kept_pred(ids)).map_values(
        |r: Relationship| (last_pos(ids, r.source@) as usize, last_pos(ids, r.target@) as usize),
    )
}

/// Whether serialized edges aggregate the keys `ks`: strictly sorted by key,
/// one edge per distinct key, weighted by its number of occurrences and
/// identified by `source->target:kind`.
pub open spec fn aggregates(edges: Seq<GraphEdge>, ks: Seq<EdgeKey>) -> bool {
    &&& forall|i: int, j: int| 0 <= i < j < edges.len() ==> key_lt(edge_key(#[trigger] edges[i]), edge_key(#[trigger] edges[j]))
    &&& forall|i: int| 0 <= i < edges.len() ==> #[trigger] edges[i].weight == key_count(ks, edge_key(edges[i]))
    &&& forall|i: int| 0 <= i < edges.len() ==> #[trigger] edges[i].id@ == edge_id_spec(edges[i].source@, edges[i].target@, edges[i].kind)
    &&& forall|i: int| 0 <= i < edges.len() ==> #[trigger] edges[i].kind != EdgeKind::ModuleDependency
    &&& edges.map_values(|e: GraphEdge| edge_key(e)).to_set() == ks.to_set()
}

/// The lowercase identifier `source->target:kind`.
fn edge_id(source: &str, target: &str, kind: EdgeKind) -> (r: String)
    ensures
        r@ == edge_id_spec(source@, target@, kind),
{
    let mut v: Vec<char> = Vec::new();
    push_str_chars(&mut v, source);
    push_str_chars(&mut v, "->");
    push_str_chars(&mut v, target);
    push_str_chars(&mut v, ":");
    let low = lower_chars(v.as_slice());
    let mut out: Vec<char> = Vec::new();
    push_chars(&mut out, low.as_slice());
    push_str_chars(&mut out, kind.label());
    string_from_chars(out.as_slice())
}

/// Compares edge keys: `-1`, `0` or `1`.
pub fn compare_key(a_src: &str, a_tgt: &str, a_kind: EdgeKind, b_src: &str, b_tgt: &str, b_kind: EdgeKind) -> (r: i8)
    ensures
        r == -1 <==> key_lt((a_src@, a_tgt@, edge_kind_rank(a_kind)), (b_src@, b_tgt@, edge_kind_rank(b_kind))),
        r == 0 <==> (a_src@, a_tgt@, edge_kind_rank(a_kind)) == (b_src@, b_tgt@, edge_kind_rank(b_kind)),
        r == 1 <==> key_lt((b_src@, b_tgt@, edge_kind_rank(b_kind)), (a_src@, a_tgt@, edge_kind_rank(a_kind))),
{
    proof {
        lemma_key_lt((a_src@, a_tgt@, edge_kind_rank(a_kind)), (b_src@, b_tgt@, edge_kind_rank(b_kind)), (a_src@, a_tgt@, edge_kind_rank(a_kind)));
    }
    let c = compare_str(a_src, b_src, false);
    if c != 0 {
        return c;
    }
    let d = compare_str(a_tgt, b_tgt, false);
    if d != 0 {
        return d;
    }
    let ra: u8 = match a_kind {
        EdgeKind::Import => 0,
        EdgeKind::Export => 1,
        EdgeKind::ModuleReference => 2,
        EdgeKind::ModuleDependency => 3,
    };
    let rb: u8 = match b_kind {
        EdgeKind::Import => 0,
        EdgeKind::Export => 1,
        EdgeKind::ModuleReference => 2,
        EdgeKind::ModuleDependency => 3,
    };
    if ra < rb {
        -1
    } else if ra == rb {
        0
    } else {
        1
    }
}

/// Counts one more occurrence of the key of a kept relationship.
#[verifier::rlimit(40)]
fn add_key(edges: &mut Vec<GraphEdge>, source: &str, target: &str, kind: EdgeKind, Ghost(ks): Ghost<Seq<EdgeKey>>)
    requires
        aggregates(old(edges)@, ks),
        kind != EdgeKind::ModuleDependency,
        ks.len() < usize::MAX,
    ensures
        aggregates(final(edges)@, ks.push((source@, target@, edge_kind_rank(kind)))),
{
    let ghost k = (source@, target@, edge_kind_rank(kind));
    let ghost nks = ks.push(k);
    let ghost keyf = |e: GraphEdge| edge_key(e);
    proof {
        assert forall|x: EdgeKey| #[trigger] key_count(nks, x) == key_count(ks, x) + if x == k { 1nat } else { 0nat } by {
            ks.lemma_filter_push(k, is_key(x));
        }
        assert forall|x: EdgeKey| #[trigger] key_count(ks, x) <= ks.len() by {
            ks.lemma_filter_len(is_key(x));
        }
    }
    let mut p: usize = 0;
    let mut done = false;
    while !done && p < edges.len()
        invariant
            p <= edges.len(),
            k == (source@, target@, edge_kind_rank(kind)),
            aggregates(edges@, ks),
            forall|j: int| 0 <= j < p ==> key_lt(edge_key(#[trigger] edges@[j]), k),
            done ==> p < edges.len() && !key_lt(edge_key(edges@[p as int]), k),
        decreases edges.len() - p, if done { 0int } else { 1int },
    {
        let e = &edges[p];
        let c = compare_key(e.source.as_str(), e.target.as_str(), e.kind, source, target, kind);
        if c == -1 {
            p = p + 1;
        } else {
            done = true;
        }
    }
    let ghost old_edges = edges@;
    if p < edges.len() && compare_key(edges[p].source.as_str(), edges[p].target.as_str(), edges[p].kind, source, target, kind) == 0 {
        let e = &edges[p];
        assert(edge_key(old_edges[p as int]) == k);
        let updated = GraphEdge {
            id: e.id.clone(),
            source: e.source.clone(),
            target: e.target.clone(),
            kind: e.kind,
            weight: e.weight + 1,
        };
        edges.set(p, updated);
        proof {
            assert forall|i: int| 0 <= i < edges@.len() implies #[trigger] edges@[i].weight == key_count(nks, edge_key(edges@[i])) by {
                if i != p {
                    assert(edges@[i] == old_edges[i]);
                    lemma_key_lt(edge_key(old_edges[i]), k, k);
                    if i < p {
                        assert(key_lt(edge_key(old_edges[i]), edge_key(old_edges[p as int])));
                    } else {
                        assert(key_lt(edge_key(old_edges[p as int]), edge_key(old_edges[i])));
                    }
                }
            }
            assert forall|i: int, j: int| 0 <= i < j < edges@.len() implies key_lt(edge_key(#[trigger] edges@[i]), edge_key(#[trigger] edges@[j])) by {
                assert(edge_key(edges@[i]) == edge_key(old_edges[i]));
                assert(edge_key(edges@[j]) == edge_key(old_edges[j]));
            }
            assert(edges@.map_values(keyf) =~= old_edges.map_values(keyf));
            lemma_push_to_set(ks, k);
            assert(old_edges.map_values(keyf)[p as int] == k);
            assert(ks.to_set().contains(k));
            assert(ks.to_set().insert(k) =~= ks.to_set());
        }
    } else {
        proof {
            if p < old_edges.len() {
                lemma_key_lt(edge_key(old_edges[p as int]), k, k);
                assert(key_lt(k, edge_key(old_edges[p as int])));
            }
            assert(!ks.to_set().contains(k)) by {
                if ks.to_set().contains(k) {
                    assert(old_edges.map_values(keyf).to_set().contains(k));
                    let q = choose|q: int| 0 <= q < old_edges.len() && old_edges.map_values(keyf)[q] == k;
                    assert(edge_key(old_edges[q]) == k);
                    lemma_key_lt(k, k, k);
                    if q < p {
                    } else if q == p {
                    } else {
                        lemma_key_lt(k, edge_key(old_edges[p as int]), edge_key(old_edges[q]));
                    }
                }
            }
        }
        let id = edge_id(source, target, kind);
        let e = GraphEdge {
            id,
            source: crate::text::to_owned_string(source),
            target: crate::text::to_owned_string(target),
            kind,
            weight: 1,
        };
        edges.insert(p, e);
        proof {
            assert(edges@ == old_edges.insert(p as int, e));
            assert(edge_key(e) == k);
            assert(!ks.contains(k)) by {
                if ks.contains(k) {
                    let q = choose|q: int| 0 <= q < ks.len() && ks[q] == k;
                    assert(ks.to_set().contains(k));
                }
            }
            lemma_key_count_absent(ks, k);
            assert forall|i: int| 0 <= i < edges@.len() implies #[trigger] edges@[i].weight == key_count(nks, edge_key(edges@[i])) by {
                if i < p {
                    assert(edges@[i] == old_edges[i]);
                    lemma_key_lt(edge_key(old_edges[i]), k, k);
                } else if i > p {
                    assert(edges@[i] == old_edges[i - 1]);
                    lemma_key_lt(k, edge_key(old_edges[p as int]), edge_key(old_edges[i - 1]));
                    lemma_key_lt(edge_key(old_edges[i - 1]), k, k);
                }
            }
            assert forall|i: int, j: int| 0 <= i < j < edges@.len() implies key_lt(edge_key(#[trigger] edges@[i]), edge_key(#[trigger] edges@[j])) by {
                if j < p {
                } else if j == p {
                    assert(edges@[i] == old_edges[i]);
                } else if i < p {
                    assert(edges@[i] == old_edges[i]);
                    assert(edges@[j] == old_edges[j - 1]);
                    lemma_key_lt(edge_key(old_edges[i]), k, edge_key(old_edges[p as int]));
                    if j - 1 > p {
                        lemma_key_lt(edge_key(old_edges[i]), edge_key(old_edges[p as int]), edge_key(old_edges[j - 1]));
                    }
                    lemma_key_lt(edge_key(old_edges[i]), k, edge_key(old_edges[j - 1]));
                } else if i == p {
                    assert(edges@[j] == old_edges[j - 1]);
                    if j - 1 > p {
                        lemma_key_lt(k, edge_key(old_edges[p as int]), edge_key(old_edges[j - 1]));
                    }
                } else {
                    assert(edges@[i] == old_edges[i - 1]);
                    assert(edges@[j] == old_edges[j - 1]);
                }
            }
            assert forall|i: int| 0 <= i < edges@.len() implies #[trigger] edges@[i].id@ == edge_id_spec(edges@[i].source@, edges@[i].target@, edges@[i].kind) by {
                if i < p {
                    assert(edges@[i] == old_edges[i]);
                } else if i > p {
                    assert(edges@[i] == old_edges[i - 1]);
                }
            }
            assert forall|i: int| 0 <= i < edges@.len() implies #[trigger] edges@[i].kind != EdgeKind::ModuleDependency by {
                if i < p {
                    assert(edges@[i] == old_edges[i]);
                } else if i > p {
                    assert(edges@[i] == old_edges[i - 1]);
                }
            }
            assert(edges@.map_values(keyf) =~= old_edges.map_values(keyf).insert(p as int, k));
            assert(edges@.map_values(keyf).to_set() =~= old_edges.map_values(keyf).to_set().insert(k)) by {
                let a = old_edges.map_values(keyf);
                let b = edges@.map_values(keyf);
                assert forall|x: EdgeKey| b.to_set().contains(x) <==> a.to_set().insert(k).contains(x) by {
                    if b.contains(x) {
                        let q = choose|q: int| 0 <= q < b.len() && b[q] == x;
                        if q < p {
                            assert(a[q] == x);
                        } else if q > p {
                            assert(a[q - 1] == x);
                        }
                    }
                    if a.contains(x) {
                        let q = choose|q: int| 0 <= q < a.len() && a[q] == x;
                        if q < p {
                            assert(b[q] == x);
                        } else {
                            assert(b[q + 1] == x);
                        }
                    }
                    if x == k {
                        assert(b[p as int] == x);
                    }
                }
            }
            lemma_push_to_set(ks, k);
        }
    }
}

proof fn lemma_key_count_absent(ks: Seq<EdgeKey>, k: EdgeKey)
    requires
        !ks.contains(k),
    ensures
        key_count(ks, k) == 0,
    decreases ks.len(),
{
    if ks.len() > 0 {
        let pre = ks.drop_last();
        assert(!pre.contains(k)) by {
            if pre.contains(k) {
                let q = choose|q: int| 0 <= q < pre.len() && pre[q] == k;
                assert(ks[q] == k);
            }
        }
        lemma_key_count_absent(pre, k);
        pre.lemma_filter_push(ks.last(), is_key(k));
        assert(pre.push(ks.last()) =~= ks);
        assert(ks[ks.len() - 1] != k);
    } else {
        assert(ks.filter(is_key(k)) =~= Seq::<EdgeKey>::empty());
    }
}

/// `s.push(x)` has the elements of `s` and `x`.
pub proof fn lemma_push_to_set<A>(s: Seq<A>, x: A)
    ensures
        s.push(x).to_set() == s.to_set().insert(x),
{
    assert forall|y: A| s.push(x).to_set().contains(y) <==> s.to_set().insert(x).contains(y) by {
        if s.push(x).contains(y) {
            let q = choose|q: int| 0 <= q < s.push(x).len() && s.push(x)[q] == y;
            if q < s.len() {
                assert(s[q] == y);
            }
        }
        if s.contains(y) {
            let q = choose|q: int| 0 <= q < s.len() && s[q] == y;
            assert(s.push(x)[q] == y);
        }
        if y == x {
            assert(s.push(x)[s.len() as int] == y);
        }
    }
    assert(s.push(x).to_set() =~= s.to_set().insert(x));
}

/// The file graph and its serialized form.
pub struct FileGraphData {
    /// Directed graph where `A -> B` means `A` depends on `B`.
    pub graph: DiGraph<String, EdgeKind>,
    /// File nodes, in path order.
    pub nodes: Vec<FileNode>,
    /// Serialized edges, sorted by source, target and kind.
    pub edges: Vec<GraphEdge>,
    /// Node identifiers by node index.
    pub ids: Vec<String>,
    /// Entry point paths present in the graph, sorted.
    pub entrypoints: Vec<String>,
    /// Build warnings.
    pub warnings: Vec<GraphWarning>,
}

/// The paths of entry points.
pub open spec fn entry_paths(eps: Seq<EntryPoint>) -> Seq<Seq<char>> {
    Seq::new(eps.len(), |i: int| eps[i].path@)
}

/// The view of an optional string.
pub open spec fn opt_string_view(o: Option<String>) -> Option<Seq<char>> {
    match o {
        Some(s) => Some(s@),
        None => None,
    }
}

/// The name of an optional language.
pub open spec fn language_view(l: Option<crate::repo::language::Language>) -> Option<Seq<char>> {
    match l {
        Some(x) => Some(language_name(x)),
        None => None,
    }
}

/// Whether `n` is the node of file `f`.
pub open spec fn node_of(n: FileNode, f: FileEntry, owners: Seq<(String, String)>, eps: Seq<EntryPoint>) -> bool {
    &&& n.id@ == f.path@
    &&& n.path@ == f.path@
    &&& opt_string_view(n.language) == language_view(f.language)
    &&& n.size == f.size
    &&& opt_string_view(n.module_id) == pair_lookup(owners, f.path@)
    &&& n.is_entrypoint == entry_paths(eps).contains(f.path@)
}

/// Whether files are in path order.
pub open spec fn files_sorted(sf: Seq<FileEntry>) -> bool {
    sorted_by(sf, |a: FileEntry, b: FileEntry| lex_le(a.path@, b.path@, false))
}

/// A warning as (severity, code, message).
pub open spec fn warning_view(w: GraphWarning) -> (Severity, Seq<char>, Seq<char>) {
    (w.severity, w.code@, w.message@)
}

/// The warnings of a file graph with `unresolved` unresolved relationships
/// and `missing` relationships naming files outside the graph.
pub open spec fn file_graph_warnings(unresolved: nat, missing: nat) -> Seq<(Severity, Seq<char>, Seq<char>)> {
    (if unresolved > 0 {
        seq![(Severity::Warning, "unresolved_relationships_skipped"@, decimal(unresolved) + " unresolved relationships were skipped"@)]
    } else {
        Seq::empty()
    }) + (if missing > 0 {
        seq![(Severity::Warning, "relationships_with_missing_files_skipped"@, decimal(missing) + " relationships referenced files outside file entries"@)]
    } else {
        Seq::empty()
    })
}

/// The files, in (stable) path order.
fn sorted_files<'a>(files: &'a Vec<FileEntry>) -> (r: Vec<&'a FileEntry>)
    ensures
        r@.map_values(|f: &FileEntry| *f).to_multiset() == files@.to_multiset(),
        files_sorted(r@.map_values(|f: &FileEntry| *f)),
{
    let mut refs: Vec<&FileEntry> = Vec::new();
    let mut i: usize = 0;
    while i < files.len()
        invariant
            i <= files.len(),
            refs@.len() == i,
            forall|k: int| 0 <= k < i ==> *#[trigger] refs@[k] == files@[k],
        decreases files.len() - i,
    {
        refs.push(&files[i]);
        i = i + 1;
    }
    let ghost f = |x: &FileEntry| *x;
    assert(refs@.map_values(f) =~= files@);
    let ghost le = |a: &FileEntry, b: &FileEntry| lex_le(a.path@, b.path@, false);
    proof {
        lemma_key_preorder(|x: &FileEntry| x.path@, false);
        assert((|a: &FileEntry, b: &FileEntry| lex_le((|x: &FileEntry| x.path@)(a), (|x: &FileEntry| x.path@)(b), false)) =~= le);
    }
    let before = |a: &&FileEntry, b: &&FileEntry| -> (o: bool)
        ensures
            o == lex_le(a.path@, b.path@, false),
        { compare_str(a.path.as_str(), b.path.as_str(), false) <= 0 };
    let ghost unsorted = refs@;
    let r = stable_sort(refs, &before, Ghost(le));
    proof {
        crate::repo::scan::lemma_map_multiset(unsorted, r@, f);
        assert forall|x: int, y: int| 0 <= x < y < r@.map_values(f).len() implies lex_le(
            r@.map_values(f)[x].path@,
            r@.map_values(f)[y].path@,
            false,
        ) by {
            assert(le(r@[x], r@[y]));
        }
    }
    r
}

/// Whether some entry point has path `p`.
pub fn is_entry_pub(eps: &Vec<EntryPoint>, p: &str) -> (r: bool)
    ensures
        r == entry_paths(eps@).contains(p@),
{
    is_entry(eps, p)
}

/// Whether some entry point has path `p`.
fn is_entry(eps: &Vec<EntryPoint>, p: &str) -> (r: bool)
    ensures
        r == entry_paths(eps@).contains(p@),
{
    let pv = chars_of(p);
    let mut i: usize = 0;
    while i < eps.len()
        invariant
            i <= eps.len(),
            pv@ == p@,
            forall|k: int| 0 <= k < i ==> entry_paths(eps@)[k] != p@,
        decreases eps.len() - i,
    {
        let c = chars_of(eps[i].path.as_str());
        if crate::text::chars_eq(c.as_slice(), pv.as_slice()) {
            assert(entry_paths(eps@)[i as int] == p@);
            return true;
        }
        i = i + 1;
    }
    false
}

/// Builds the file dependency graph: a node per file in path order (its
/// language, owning module and entry point flag), an edge per resolved
/// relationship between two files of the graph, the serialized edges
/// aggregated by (source, target, kind), the entry points present in the
/// graph, and warnings counting the relationships skipped.
pub fn build_file_graph(
    files: &Vec<FileEntry>,
    entry_points: &Vec<EntryPoint>,
    relationships: &Vec<Relationship>,
    module_by_file: &Vec<(String, String)>,
) -> (r: FileGraphData)
    requires
        files@.len() < u32::MAX,
        relationships@.len() < u32::MAX,
    ensures
        exists|sf: Seq<FileEntry>|
            #![trigger files_sorted(sf)]
            sf.to_multiset() == files@.to_multiset() && files_sorted(sf) && r.nodes@.len() == sf.len() && forall|i: int|
                0 <= i < sf.len() ==> node_of(#[trigger] r.nodes@[i], sf[i], module_by_file@, entry_points@),
        views_of(r.ids@) == Seq::new(r.nodes@.len(), |i: int| r.nodes@[i].id@),
        graph_nodes(r.graph) == views_of(r.ids@),
        graph_edges(r.graph) == kept_ends(relationships@, views_of(r.ids@)),
        aggregates(r.edges@, kept_keys(relationships@, views_of(r.ids@))),
        strictly_sorted(views_of(r.entrypoints@), false),
        views_of(r.entrypoints@).to_set() == entry_paths(entry_points@).to_set().filter(
            |p: Seq<char>| views_of(r.ids@).contains(p),
        ),
        r.warnings@.map_values(|w: GraphWarning| warning_view(w)) == file_graph_warnings(
            relationships@.filter(unresolved_pred()).len(),
            relationships@.filter(missing_pred(views_of(r.ids@))).len(),
        ),
{
    broadcast use vstd::seq_lib::group_to_multiset_ensures;

    let sorted = sorted_files(files);
    let ghost sf = sorted@.map_values(|f: &FileEntry| *f);
    assert(sf.len() == files@.len()) by {
        assert(sf.to_multiset().len() == files@.to_multiset().len());
    }
    let mut graph = graph_new();
    let mut nodes: Vec<FileNode> = Vec::new();
    let mut ids: Vec<String> = Vec::new();
    let mut i: usize = 0;
    while i < sorted.len()
        invariant
            i <= sorted.len(),
            sf == sorted@.map_values(|f: &FileEntry| *f),
            sorted@.len() == files@.len(),
            files@.len() < u32::MAX,
            nodes@.len() == i,
            forall|k: int| 0 <= k < i ==> node_of(#[trigger] nodes@[k], sf[k], module_by_file@, entry_points@),
            views_of(ids@) == Seq::new(nodes@.len(), |k: int| nodes@[k].id@),
            graph_nodes(graph) == views_of(ids@),
            graph_edges(graph) == Seq::<(usize, usize)>::empty(),
        decreases sorted.len() - i,
    {
        let f: &FileEntry = sorted[i];
        assert(*f == sf[i as int]);
        let path = f.path.clone();
        let _index = graph_add_node(&mut graph, f.path.clone());
        let language = match f.language {
            Some(l) => Some(crate::text::to_owned_string(l.as_str())),
            None => None,
        };
        let module_id = lookup_pair(module_by_file, f.path.as_str());
        let is_entrypoint = is_entry(entry_points, f.path.as_str());
        let ghost old_ids = views_of(ids@);
        let ghost old_nodes = nodes@;
        ids.push(f.path.clone());
        let n = FileNode { id: path.clone(), path, language, size: f.size, module_id, is_entrypoint };
        nodes.push(n);
        proof {
            assert(node_of(nodes@[i as int], sf[i as int], module_by_file@, entry_points@));
            assert forall|k: int| 0 <= k < i + 1 implies node_of(#[trigger] nodes@[k], sf[k], module_by_file@, entry_points@) by {
                if k < i {
                    assert(nodes@[k] == old_nodes[k]);
                }
            }
            assert(views_of(ids@) =~= old_ids.push(f.path@));
            assert(views_of(ids@) =~= Seq::new(nodes@.len(), |k: int| nodes@[k].id@));
        }
        i = i + 1;
    }
    let ghost idv = views_of(ids@);
    let ghost rels = relationships@;
    let mut edges: Vec<GraphEdge> = Vec::new();
    let mut unresolved: u64 = 0;
    let mut missing: u64 = 0;
    let mut j: usize = 0;
    proof {
        assert(rels.take(0) =~= Seq::<Relationship>::empty());
        assert(kept_keys(rels.take(0), idv) =~= Seq::<EdgeKey>::empty());
        assert(kept_ends(rels.take(0), idv) =~= Seq::<(usize, usize)>::empty());
        assert(rels.take(0).filter(unresolved_pred()) =~= Seq::<Relationship>::empty());
        assert(rels.take(0).filter(missing_pred(idv)) =~= Seq::<Relationship>::empty());
        assert(edges@.map_values(|e: GraphEdge| edge_key(e)).to_set() =~= Set::<EdgeKey>::empty());
        assert(Seq::<EdgeKey>::empty().to_set() =~= Set::<EdgeKey>::empty());
    }
    while j < relationships.len()
        invariant
            j <= relationships.len(),
            rels == relationships@,
            rels.len() < u32::MAX,
            idv == views_of(ids@),
            graph_nodes(graph) == idv,
            graph_edges(graph) == kept_ends(rels.take(j as int), idv),
            aggregates(edges@, kept_keys(rels.take(j as int), idv)),
            unresolved == rels.take(j as int).filter(unresolved_pred()).len(),
            missing == rels.take(j as int).filter(missing_pred(idv)).len(),
        decreases relationships.len() - j,
    {
        let r = &relationships[j];
        let ghost pre = rels.take(j as int);
        proof {
            assert(rels.take(j + 1) =~= pre.push(*r));
            pre.lemma_filter_push(*r, unresolved_pred());
            pre.lemma_filter_push(*r, missing_pred(idv));
            pre.lemma_filter_push(*r, kept_pred(idv));
            pre.filter(unresolved_pred()).lemma_filter_len(unresolved_pred());
            assert(pre.filter(unresolved_pred()).len() <= pre.len()) by {
                pre.lemma_filter_len(unresolved_pred());
            }
            assert(pre.filter(missing_pred(idv)).len() <= pre.len()) by {
                pre.lemma_filter_len(missing_pred(idv));
            }
            assert(kept_keys(pre, idv).len() <= pre.len()) by {
                pre.lemma_filter_len(kept_pred(idv));
            }
        }
        if !r.resolved {
            unresolved = unresolved + 1;
            proof {
                assert(kept_keys(rels.take(j + 1), idv) =~= kept_keys(pre, idv));
                assert(kept_ends(rels.take(j + 1), idv) =~= kept_ends(pre, idv));
            }
        } else {
            let a = last_index_of_id(&ids, r.source.as_str());
            let b = last_index_of_id(&ids, r.target.as_str());
            proof {
                lemma_last_pos(idv, r.source@);
                lemma_last_pos(idv, r.target@);
            }
            match (a, b) {
                (Some(ai), Some(bi)) => {
                    let kind = edge_kind_from(r.kind);
                    proof {
                        pre.lemma_filter_len(kept_pred(idv));
                    }
                    graph_add_edge(&mut graph, ai, bi, kind);
                    add_key(&mut edges, r.source.as_str(), r.target.as_str(), kind, Ghost(kept_keys(pre, idv)));
                    proof {
                        assert(kept_keys(rels.take(j + 1), idv) =~= kept_keys(pre, idv).push(rel_key(*r)));
                        assert(kept_ends(rels.take(j + 1), idv) =~= kept_ends(pre, idv).push((ai, bi)));
                    }
                },
                _ => {
                    missing = missing + 1;
                    proof {
                        assert(kept_keys(rels.take(j + 1), idv) =~= kept_keys(pre, idv));
                        assert(kept_ends(rels.take(j + 1), idv) =~= kept_ends(pre, idv));
                    }
                },
            }
        }
        j = j + 1;
    }
    assert(rels.take(rels.len() as int) =~= rels);
    let mut entrypoints: Vec<String> = Vec::new();
    let mut k: usize = 0;
    let ghost eps = entry_paths(entry_points@);
    let ghost inside = |p: Seq<char>| idv.contains(p);
    assert(views_of(entrypoints@).to_set() =~= eps.take(0).to_set().filter(inside));
    while k < entry_points.len()
        invariant
            k <= entry_points.len(),
            eps == entry_paths(entry_points@),
            idv == views_of(ids@),
            inside == (|p: Seq<char>| idv.contains(p)),
            strictly_sorted(views_of(entrypoints@), false),
            views_of(entrypoints@).to_set() == eps.take(k as int).to_set().filter(inside),
        decreases entry_points.len() - k,
    {
        let p = entry_points[k].path.as_str();
        let found = last_index_of_id(&ids, p);
        proof {
            lemma_last_pos(idv, p@);
            assert(eps.take(k + 1) =~= eps.take(k as int).push(p@));
            lemma_push_to_set(eps.take(k as int), p@);
        }
        if found.is_some() {
            insert_sorted(&mut entrypoints, crate::text::to_owned_string(p), false);
            assert(views_of(entrypoints@).to_set() =~= eps.take(k + 1).to_set().filter(inside));
        } else {
            assert(views_of(entrypoints@).to_set() =~= eps.take(k + 1).to_set().filter(inside));
        }
        k = k + 1;
    }
    assert(eps.take(eps.len() as int) =~= eps);
    let mut warnings: Vec<GraphWarning> = Vec::new();
    if unresolved > 0 {
        let mut m: Vec<char> = Vec::new();
        push_str_chars(&mut m, decimal_string(unresolved).as_str());
        push_str_chars(&mut m, " unresolved relationships were skipped");
        warnings.push(GraphWarning {
            severity: Severity::Warning,
            code: crate::text::to_owned_string("unresolved_relationships_skipped"),
            message: string_from_chars(m.as_slice()),
        });
    }
    if missing > 0 {
        let mut m: Vec<char> = Vec::new();
        push_str_chars(&mut m, decimal_string(missing).as_str());
        push_str_chars(&mut m, " relationships referenced files outside file entries");
        warnings.push(GraphWarning {
            severity: Severity::Warning,
            code: crate::text::to_owned_string("relationships_with_missing_files_skipped"),
            message: string_from_chars(m.as_slice()),
        });
    }
    assert(warnings@.map_values(|w: GraphWarning| warning_view(w)) =~= file_graph_warnings(
        relationships@.filter(unresolved_pred()).len(),
        relationships@.filter(missing_pred(views_of(ids@))).len(),
    ));
    assert(files_sorted(sf));
    FileGraphData { graph, nodes, edges, ids, entrypoints, warnings }
}

} // verus!
