//! Records of dependency-graph analysis.

use vstd::prelude::*;

verus! {

/// A broad node class for serialized output.
#[derive(Debug, Clone, Copy, PartialEq, Eq, Structural)]
pub enum NodeKind {
    /// Repository file node.
    File,
    /// Repository module node.
    Module,
}

/// Dependency edge kind.
#[derive(Debug, Clone, Copy, PartialEq, Eq, Structural, PartialOrd, Ord, Hash)]
pub enum EdgeKind {
    /// Source imports target.
    Import,
    /// Source exports target.
    Export,
    /// Source declares target as a module.
    ModuleReference,
    /// Aggregated module dependency.
    ModuleDependency,
}

/// The position of an edge kind in declaration order.
pub open spec fn edge_kind_rank(k: EdgeKind) -> int {
    match k {
        EdgeKind::Import => 0,
        EdgeKind::Export => 1,
        EdgeKind::ModuleReference => 2,
        EdgeKind::ModuleDependency => 3,
    }
}

/// The lowercase debug name of an edge kind.
pub open spec fn edge_kind_label(k: EdgeKind) -> Seq<char> {
    match k {
        EdgeKind::Import => "import"@,
        EdgeKind::Export => "export"@,
        EdgeKind::ModuleReference => "modulereference"@,
        EdgeKind::ModuleDependency => "moduledependency"@,
    }
}

impl EdgeKind {
    /// The lowercase debug name of the kind.
    pub fn label(&self) -> (r: &'static str)
        ensures
            r@ == edge_kind_label(*self),
    {
        match self {
            EdgeKind::Import => "import",
            EdgeKind::Export => "export",
            EdgeKind::ModuleReference => "modulereference",
            EdgeKind::ModuleDependency => "moduledependency",
        }
    }
}

/// A file-level graph node.
#[derive(Debug, Clone, PartialEq, Eq)]
pub struct FileNode {
    /// Stable node identifier, equal to the repository-relative path.
    pub id: String,
    /// Repository-relative path.
    pub path: String,
    /// Detected language name, when one was found.
    pub language: Option<String>,
    /// File size in bytes.
    pub size: u64,
    /// Owning module identifier, when known.
    pub module_id: Option<String>,
    /// Whether the file is an entry point.
    pub is_entrypoint: bool,
}

/// A module-level graph node.
#[derive(Debug, Clone, PartialEq, Eq)]
pub struct ModuleNode {
    /// Stable module identifier.
    pub id: String,
    /// Display name.
    pub name: String,
    /// Repository-relative module root.
    pub root: String,
    /// Module kind, lowercase.
    pub kind: String,
    /// Files owned by the module, sorted and without repeats.
    pub files: Vec<String>,
}

/// A deterministic directed graph edge.
#[derive(Debug, Clone, PartialEq, Eq)]
pub struct GraphEdge {
    /// Stable edge identifier.
    pub id: String,
    /// Source node identifier.
    pub source: String,
    /// Target node identifier.
    pub target: String,
    /// Dependency kind.
    pub kind: EdgeKind,
    /// Number of file edges represented by this edge.
    pub weight: usize,
}

/// Serialized file graph.
#[derive(Debug, Clone, PartialEq, Eq)]
pub struct FileGraph {
    /// File nodes sorted by identifier.
    pub nodes: Vec<FileNode>,
    /// File edges sorted by source, target, and kind.
    pub edges: Vec<GraphEdge>,
}

/// Serialized module graph.
#[derive(Debug, Clone, PartialEq, Eq)]
pub struct ModuleGraph {
    /// Module nodes sorted by identifier.
    pub nodes: Vec<ModuleNode>,
    /// Module edges sorted by source and target.
    pub edges: Vec<GraphEdge>,
}

/// Warning severity.
#[derive(Debug, Clone, Copy, PartialEq, Eq, Structural)]
pub enum Severity {
    /// Informational.
    Info,
    /// Something was skipped.
    Warning,
}

/// A non-fatal observation made while building a graph.
#[derive(Debug, Clone, PartialEq, Eq)]
pub struct GraphWarning {
    /// Severity.
    pub severity: Severity,
    /// Machine-readable code.
    pub code: String,
    /// Human-readable message.
    pub message: String,
}

/// A dependency cycle (a strongly connected component with more than one
/// node, or a node with an edge to itself).
#[derive(Debug, Clone, PartialEq, Eq)]
pub struct Cycle {
    /// `cycle:` followed by the sorted members joined with `|`.
    pub id: String,
    /// Number of members.
    pub size: usize,
    /// Member files (file cycles).
    pub files: Vec<String>,
    /// Member modules (module cycles).
    pub modules: Vec<String>,
}

/// Files reachable, and not, from the entry points.
#[derive(Debug, Clone, PartialEq, Eq)]
pub struct Reachability {
    /// Entry points used as roots.
    pub entrypoints: Vec<String>,
    /// Reachable node identifiers, sorted.
    pub reachable_nodes: Vec<String>,
    /// Unreachable node identifiers, sorted.
    pub unreachable_nodes: Vec<String>,
}

/// Degree counts of one node.
#[derive(Debug, Clone, PartialEq, Eq)]
pub struct EdgeMetrics {
    /// Node identifier.
    pub id: String,
    /// Number of incoming edges.
    pub in_degree: usize,
    /// Number of outgoing edges.
    pub out_degree: usize,
    /// Sum of both.
    pub total_degree: usize,
}

/// A node ranked by degree.
#[derive(Debug, Clone, PartialEq, Eq)]
pub struct CentralNode {
    /// Node identifier.
    pub id: String,
    /// Number of incoming edges.
    pub in_degree: usize,
    /// Number of outgoing edges.
    pub out_degree: usize,
    /// Sum of both.
    pub total_degree: usize,
}

/// A dependency chain from an entry point.
#[derive(Debug, Clone, PartialEq, Eq)]
pub struct DependencyChain {
    /// Number of nodes of the chain.
    pub depth: usize,
    /// The nodes, from the entry point on.
    pub nodes: Vec<String>,
}

} // verus!
