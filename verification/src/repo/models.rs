//! Models produced by the repository analysis.

use vstd::prelude::*;
use crate::repo::language::Language;

verus! {

/// The kind of a discovered logical module.
#[derive(Debug, Clone, Copy, PartialEq, Eq, Structural, Hash, PartialOrd, Ord)]
pub enum ModuleKind {
    /// A feature module (e.g. `auth`, `cart`).
    Feature,
    /// A layer of an N-tier architecture (e.g. `controllers`, `models`).
    Layer,
    /// A standalone package (workspace member / monorepo package).
    Package,
}

/// A logical module inside a repository.
#[derive(Debug, Clone, PartialEq, Eq)]
pub struct Module {
    /// Short module name derived from the folder name.
    pub name: String,
    /// Classification of the module.
    pub kind: ModuleKind,
    /// Repository-relative path of the module root folder.
    pub root: String,
    /// Repository-relative paths of every file owned by the module.
    pub files: Vec<String>,
}

/// The nature of a relationship between two files.
#[derive(Debug, Clone, Copy, PartialEq, Eq, Structural, Hash, PartialOrd, Ord)]
pub enum RelationshipKind {
    /// The source file imports from the target.
    Import,
    /// The source file re-exports the target.
    Export,
    /// The source file declares the target as a submodule (Rust `mod`).
    ModuleReference,
}

/// The position of a relationship kind in the order `Import < Export <
/// ModuleReference`.
pub open spec fn kind_rank(k: RelationshipKind) -> int {
    match k {
        RelationshipKind::Import => 0,
        RelationshipKind::Export => 1,
        RelationshipKind::ModuleReference => 2,
    }
}

/// A directed edge between two repository files. When the specifier could
/// not be mapped to a file, `target` holds the raw specifier and `resolved`
/// is `false`.
#[derive(Debug, Clone, PartialEq, Eq)]
pub struct Relationship {
    /// Repository-relative path of the file containing the reference.
    pub source: String,
    /// Repository-relative path of the referenced file, or the raw specifier.
    pub target: String,
    /// What kind of reference this is.
    pub kind: RelationshipKind,
    /// Whether `target` points at a real file inside the repository.
    pub resolved: bool,
}

/// Coarse file counts for quick summarisation.
#[derive(Debug, Clone, Copy, PartialEq, Eq)]
pub struct AnalysisSummary {
    /// Number of files discovered.
    pub files: u64,
    /// Number of directories discovered.
    pub directories: u64,
    /// Number of project roots discovered.
    pub project_roots: usize,
    /// Total bytes of scanned files.
    pub bytes: u64,
}

/// Tooling metadata discovered in a repository.
#[derive(Debug, Clone, PartialEq, Eq)]
pub struct ProjectMetadata {
    /// Inferred package managers (e.g. `pnpm`, `cargo`, `poetry`).
    pub package_managers: Vec<String>,
    /// Detected build systems (e.g. `make`, `cmake`, `gradle`).
    pub build_systems: Vec<String>,
    /// Repository-relative paths of lockfiles.
    pub lockfiles: Vec<String>,
    /// Repository-relative paths of notable configuration files.
    pub config_files: Vec<String>,
    /// Repository-relative paths of manifest/project definition files.
    pub manifests: Vec<String>,
    /// Detected CI systems (e.g. `github_actions`).
    pub ci: Vec<String>,
    /// Whether any Docker-related file (Dockerfile/compose) exists.
    pub has_docker: bool,
}

/// A probable application entry point. The confidence is kept in
/// millionths (`980000` is a confidence of `0.98`).
#[derive(Debug, Clone, PartialEq, Eq)]
pub struct EntryPoint {
    /// Repository-relative path of the entry point file.
    pub path: String,
    /// Confidence in millionths, `0..=1_000_000`.
    pub confidence_millionths: u64,
    /// Machine-readable label describing which heuristic fired.
    pub heuristic: String,
}

/// A single discovered file.
#[derive(Debug, Clone, PartialEq, Eq)]
pub struct FileEntry {
    /// Repository-relative path of the file.
    pub path: String,
    /// Size in bytes.
    pub size: u64,
    /// Detected language, if any.
    pub language: Option<Language>,
}

/// A file discovered during scanning.
#[derive(Debug, Clone)]
pub struct ScannedFile {
    /// Absolute path on disk.
    pub path: String,
    /// Repository-relative path (`/`-separated, normalised).
    pub rel: String,
    /// Size in bytes.
    pub size: u64,
}

/// Aggregate counters for a scan.
#[derive(Debug, Clone, Copy)]
pub struct ScanStats {
    /// Number of files.
    pub files: u64,
    /// Number of directories (excluding the root).
    pub directories: u64,
    /// Total bytes of all files.
    pub bytes: u64,
    /// Number of entries that could not be read.
    pub scan_errors: u64,
}

/// Result of one repository scan.
#[derive(Debug, Clone)]
pub struct ScanResult {
    /// Absolute root path.
    pub root: String,
    /// Discovered files (sorted by relative path).
    pub files: Vec<ScannedFile>,
    /// Discovered directories relative to the root, excluding the root.
    pub directories: Vec<String>,
    /// Project roots relative to the root, including the root itself (`""`).
    pub project_roots: Vec<String>,
    /// Aggregate counters.
    pub stats: ScanStats,
    /// Wall-clock traversal time in nanoseconds.
    pub duration_ns: u64,
}

/// The relative paths of a sequence of scanned files.
pub open spec fn rels(files: Seq<ScannedFile>) -> Seq<Seq<char>> {
    Seq::new(files.len(), |i: int| files[i].rel@)
}

} // verus!
