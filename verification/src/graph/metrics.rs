//! Size accounting for built graphs: the bytes held by their strings and an
//! estimate of their heap footprint.

use vstd::prelude::*;
use vstd::utf8::encode_utf8;
use petgraph::graph::NodeIndex;
use crate::graph::models::{EdgeKind, FileGraph, FileNode, GraphEdge, ModuleGraph, ModuleNode};

verus! {

#[verifier::external_type_specification]
#[verifier::external_body]
#[verifier::reject_recursive_types(Ix)]
pub struct ExNodeIndex<Ix>(NodeIndex<Ix>);

/// The length in bytes that `str::len` reports for text `s`.
pub open spec fn byte_len(s: Seq<char>) -> nat {
    (encode_utf8(s).len() as usize) as nat
}

/// The sum of `f` over `s`.
pub open spec fn sum_of<T>(s: Seq<T>, f: spec_fn(T) -> nat) -> nat
    decreases s.len(),
{
    if s.len() == 0 {
        0
    } else {
        sum_of(s.drop_last(), f) + f(s.last())
    }
}

/// String bytes of a file node: its identifier and language name.
pub open spec fn file_node_bytes() -> spec_fn(FileNode) -> nat {
    |n: FileNode| byte_len(n.id@) + match n.language {
        Some(l) => byte_len(l@),
        None => 0,
    }
}

/// String bytes of an edge: its source, target and identifier.
pub open spec fn edge_bytes() -> spec_fn(GraphEdge) -> nat {
    |e: GraphEdge| byte_len(e.source@) + byte_len(e.target@) + byte_len(e.id@)
}

/// String bytes of a module node: its identifier, name and root.
pub open spec fn module_node_bytes() -> spec_fn(ModuleNode) -> nat {
    |n: ModuleNode| byte_len(n.id@) + byte_len(n.name@) + byte_len(n.root@)
}

/// The bytes held by the strings of both graphs.
pub open spec fn graph_string_bytes(fg: FileGraph, mg: ModuleGraph) -> nat {
    sum_of(fg.nodes@, file_node_bytes()) + sum_of(fg.edges@, edge_bytes()) + sum_of(mg.nodes@, module_node_bytes())
        + sum_of(mg.edges@, edge_bytes())
}

/// Bytes per node: its name and its index.
pub open spec fn node_slot() -> nat {
    vstd::layout::size_of::<String>() + vstd::layout::size_of::<NodeIndex<u32>>()
}

/// Bytes per edge: its kind and its endpoints.
pub open spec fn edge_slot() -> nat {
    vstd::layout::size_of::<EdgeKind>() + vstd::layout::size_of::<(usize, usize)>()
}

/// The estimated footprint of graphs with these node and edge counts and
/// string bytes.
pub open spec fn memory_formula(nodes: nat, edges: nat, modules: nat, module_edges: nat, string_bytes: nat) -> nat {
    nodes * node_slot() + edges * edge_slot() + modules * node_slot() + module_edges * edge_slot() + string_bytes
}

proof fn lemma_sum_prefix<T>(s: Seq<T>, f: spec_fn(T) -> nat, i: int)
    requires
        0 <= i <= s.len(),
    ensures
        sum_of(s.take(i), f) <= sum_of(s, f),
    decreases s.len() - i,
{
    if i < s.len() {
        lemma_sum_prefix(s, f, i + 1);
        assert(s.take(i + 1).drop_last() =~= s.take(i));
    } else {
        assert(s.take(i) =~= s);
    }
}

/// Adds `f` over `s` to `acc`, or `None` once the total passes `usize::MAX`.
fn add_file_nodes(acc: usize, s: &Vec<FileNode>) -> (r: Option<usize>)
    ensures
        r == (if acc + sum_of(s@, file_node_bytes()) <= usize::MAX {
            Some((acc + sum_of(s@, file_node_bytes())) as usize)
        } else {
            None::<usize>
        }),
{
    let mut total = acc;
    let mut i: usize = 0;
    while i < s.len()
        invariant
            i <= s.len(),
            total == acc + sum_of(s@.take(i as int), file_node_bytes()),
        decreases s.len() - i,
    {
        let n = &s[i];
        let lang = match &n.language {
            Some(l) => l.as_str().len(),
            None => 0,
        };
        proof {
            assert(s@.take(i + 1).drop_last() =~= s@.take(i as int));
            assert(s@.take(i + 1).last() == s@[i as int]);
            lemma_sum_prefix(s@, file_node_bytes(), i + 1);
        }
        let a = match total.checked_add(n.id.as_str().len()) {
            Some(v) => v,
            None => return None,
        };
        total = match a.checked_add(lang) {
            Some(v) => v,
            None => return None,
        };
        i = i + 1;
    }
    assert(s@.take(s@.len() as int) =~= s@);
    Some(total)
}

/// Adds `f` over `s` to `acc`, or `None` once the total passes `usize::MAX`.
fn add_edges(acc: usize, s: &Vec<GraphEdge>) -> (r: Option<usize>)
    ensures
        r == (if acc + sum_of(s@, edge_bytes()) <= usize::MAX {
            Some((acc + sum_of(s@, edge_bytes())) as usize)
        } else {
            None::<usize>
        }),
{
    let mut total = acc;
    let mut i: usize = 0;
    while i < s.len()
        invariant
            i <= s.len(),
            total == acc + sum_of(s@.take(i as int), edge_bytes()),
        decreases s.len() - i,
    {
        let e = &s[i];
        proof {
            assert(s@.take(i + 1).drop_last() =~= s@.take(i as int));
            assert(s@.take(i + 1).last() == s@[i as int]);
            lemma_sum_prefix(s@, edge_bytes(), i + 1);
        }
        let a = match total.checked_add(e.source.as_str().len()) {
            Some(v) => v,
            None => return None,
        };
        let b = match a.checked_add(e.target.as_str().len()) {
            Some(v) => v,
            None => return None,
        };
        total = match b.checked_add(e.id.as_str().len()) {
            Some(v) => v,
            None => return None,
        };
        i = i + 1;
    }
    assert(s@.take(s@.len() as int) =~= s@);
    Some(total)
}

/// Adds `f` over `s` to `acc`, or `None` once the total passes `usize::MAX`.
fn add_module_nodes(acc: usize, s: &Vec<ModuleNode>) -> (r: Option<usize>)
    ensures
        r == (if acc + sum_of(s@, module_node_bytes()) <= usize::MAX {
            Some((acc + sum_of(s@, module_node_bytes())) as usize)
        } else {
            None::<usize>
        }),
{
    let mut total = acc;
    let mut i: usize = 0;
    while i < s.len()
        invariant
            i <= s.len(),
            total == acc + sum_of(s@.take(i as int), module_node_bytes()),
        decreases s.len() - i,
    {
        let n = &s[i];
        proof {
            assert(s@.take(i + 1).drop_last() =~= s@.take(i as int));
            assert(s@.take(i + 1).last() == s@[i as int]);
            lemma_sum_prefix(s@, module_node_bytes(), i + 1);
        }
        let a = match total.checked_add(n.id.as_str().len()) {
            Some(v) => v,
            None => return None,
        };
        let b = match a.checked_add(n.name.as_str().len()) {
            Some(v) => v,
            None => return None,
        };
        total = match b.checked_add(n.root.as_str().len()) {
            Some(v) => v,
            None => return None,
        };
        i = i + 1;
    }
    assert(s@.take(s@.len() as int) =~= s@);
    Some(total)
}

/// The bytes held by the strings of both graphs (node identifiers,
/// languages, names and roots, edge endpoints and identifiers), or `None`
/// when that total does not fit in `usize`.
pub fn string_bytes(file_graph: &FileGraph, module_graph: &ModuleGraph) -> (r: Option<usize>)
    ensures
        r == (if graph_string_bytes(*file_graph, *module_graph) <= usize::MAX {
            Some(graph_string_bytes(*file_graph, *module_graph) as usize)
        } else {
            None::<usize>
        }),
{
    let a = match add_file_nodes(0, &file_graph.nodes) {
        Some(v) => v,
        None => return None,
    };
    let b = match add_edges(a, &file_graph.edges) {
        Some(v) => v,
        None => return None,
    };
    let c = match add_module_nodes(b, &module_graph.nodes) {
        Some(v) => v,
        None => return None,
    };
    add_edges(c, &module_graph.edges)
}

/// Estimated heap footprint of graph data in bytes: a name and an index per
/// node, a kind and two endpoints per edge, plus the string bytes.
pub fn memory_estimate(
    node_count: usize,
    edge_count: usize,
    module_count: usize,
    module_edge_count: usize,
    string_bytes: usize,
) -> (r: usize)
    requires
        memory_formula(node_count as nat, edge_count as nat, module_count as nat, module_edge_count as nat, string_bytes as nat)
            <= usize::MAX,
    ensures
        r == memory_formula(node_count as nat, edge_count as nat, module_count as nat, module_edge_count as nat, string_bytes as nat),
{
    let node_size = core::mem::size_of::<String>() as u128 + core::mem::size_of::<NodeIndex<u32>>() as u128;
    let edge_size = core::mem::size_of::<EdgeKind>() as u128 + core::mem::size_of::<(usize, usize)>() as u128;
    assert(node_size == node_slot());
    assert(edge_size == edge_slot());
    let ghost total = memory_formula(node_count as nat, edge_count as nat, module_count as nat, module_edge_count as nat, string_bytes as nat);
    proof {
        assert(node_count * node_slot() <= total);
        assert(edge_count * edge_slot() <= total);
        assert(module_count * node_slot() <= total);
        assert(module_edge_count * edge_slot() <= total);
    }
    let a = node_count as u128 * node_size;
    let b = edge_count as u128 * edge_size;
    let c = module_count as u128 * node_size;
    let d = module_edge_count as u128 * edge_size;
    (a + b + c + d + string_bytes as u128) as usize
}

/// The estimated heap footprint of both graphs, or `None` when it does not
/// fit in `usize`.
pub fn graph_memory_estimate(file_graph: &FileGraph, module_graph: &ModuleGraph) -> (r: Option<usize>)
    ensures
        r == (if memory_formula(
            file_graph.nodes@.len(),
            file_graph.edges@.len(),
            module_graph.nodes@.len(),
            module_graph.edges@.len(),
            graph_string_bytes(*file_graph, *module_graph),
        ) <= usize::MAX {
            Some(
                memory_formula(
                    file_graph.nodes@.len(),
                    file_graph.edges@.len(),
                    module_graph.nodes@.len(),
                    module_graph.edges@.len(),
                    graph_string_bytes(*file_graph, *module_graph),
                ) as usize,
            )
        } else {
            None::<usize>
        }),
{
    let sb = match string_bytes(file_graph, module_graph) {
        Some(v) => v,
        None => return None,
    };
    let node_size = core::mem::size_of::<String>() as u128 + core::mem::size_of::<NodeIndex<u32>>() as u128;
    let edge_size = core::mem::size_of::<EdgeKind>() as u128 + core::mem::size_of::<(usize, usize)>() as u128;
    let n = file_graph.nodes.len() as u128;
    let e = file_graph.edges.len() as u128;
    let m = module_graph.nodes.len() as u128;
    let me = module_graph.edges.len() as u128;
    let limit = usize::MAX as u128;
    if (n > 0 && node_size > limit) || (m > 0 && node_size > limit) || (e > 0 && edge_size > limit) || (me > 0
        && edge_size > limit) {
        proof {
            assert(n * node_size >= node_size || n == 0) by (nonlinear_arith);
            assert(m * node_size >= node_size || m == 0) by (nonlinear_arith);
            assert(e * edge_size >= edge_size || e == 0) by (nonlinear_arith);
            assert(me * edge_size >= edge_size || me == 0) by (nonlinear_arith);
        }
        return None;
    }
    proof {
        assert(n * node_size <= 0xffff_ffff_ffff_ffff_0000_0000_0000_0000u128) by (nonlinear_arith)
            requires
                n <= 0xffff_ffff_ffff_ffffu128,
                node_size <= 0xffff_ffff_ffff_ffffu128 || n == 0,
        ;
        assert(m * node_size <= 0xffff_ffff_ffff_ffff_0000_0000_0000_0000u128) by (nonlinear_arith)
            requires
                m <= 0xffff_ffff_ffff_ffffu128,
                node_size <= 0xffff_ffff_ffff_ffffu128 || m == 0,
        ;
        assert(e * edge_size <= 0xffff_ffff_ffff_ffff_0000_0000_0000_0000u128) by (nonlinear_arith)
            requires
                e <= 0xffff_ffff_ffff_ffffu128,
                edge_size <= 0xffff_ffff_ffff_ffffu128 || e == 0,
        ;
        assert(me * edge_size <= 0xffff_ffff_ffff_ffff_0000_0000_0000_0000u128) by (nonlinear_arith)
            requires
                me <= 0xffff_ffff_ffff_ffffu128,
                edge_size <= 0xffff_ffff_ffff_ffffu128 || me == 0,
        ;
    }
    let a = n * node_size;
    if a > limit {
        return None;
    }
    let b = e * edge_size;
    if b > limit {
        return None;
    }
    let c = m * node_size;
    if c > limit {
        return None;
    }
    let d = me * edge_size;
    if d > limit {
        return None;
    }
    let total = a + b + c + d + sb as u128;
    if total > limit {
        return None;
    }
    Some(memory_estimate(file_graph.nodes.len(), file_graph.edges.len(), module_graph.nodes.len(), module_graph.edges.len(), sb))
}

} // verus!
