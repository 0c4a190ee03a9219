//! One pass of repository analysis over a scan and the texts read for it:
//! languages, frameworks, tooling metadata, entry points, relationships,
//! modules and the file inventory.

use vstd::prelude::*;
use vstd::relations::sorted_by;
use crate::order::{lex_le, views_of};
use crate::paths::{forward_slashes, slashes};
use crate::repo::entrypoint_detector::{EntryPointDetector, entries_sorted, entry_views, packages_entries, roots_entries};
use crate::repo::framework_detector::{FrameworkDetector, found_in};
use crate::repo::import_extractor::{ImportExtractor, all_rels, dedup_adjacent, rel_views, sort_rels};
use crate::repo::language::{Framework, Language, all_frameworks, all_languages};
use crate::repo::language_detector::{LanguageDetector, count_entry, language_count, language_of_path};
use crate::repo::metadata_detector::{MetadataDetector, metadata_of};
use crate::repo::models::{AnalysisSummary, EntryPoint, FileEntry, Module, ProjectMetadata, Relationship, ScanResult, rels};
use crate::repo::module_detector::{ModuleDetector, copy_strings, detect_input, discovered, mviews};

verus! {

/// What one pass of analysis finds in a scanned repository.
#[derive(Debug, Clone)]
pub struct AnalysisCore {
    /// Coarse counters.
    pub summary: AnalysisSummary,
    /// Files per language, in language order, for languages present.
    pub languages: Vec<(Language, usize)>,
    /// Detected frameworks, in framework order.
    pub frameworks: Vec<Framework>,
    /// Tooling metadata.
    pub metadata: ProjectMetadata,
    /// Project roots, in path order.
    pub project_roots: Vec<String>,
    /// Probable entry points, most confident first.
    pub entry_points: Vec<EntryPoint>,
    /// Logical modules, by root.
    pub modules: Vec<Module>,
    /// File-to-file relationships, in (source, target, kind) order.
    pub relationships: Vec<Relationship>,
    /// Every discovered file, in path order.
    pub files: Vec<FileEntry>,
    /// Every discovered directory, in path order.
    pub directories: Vec<String>,
}

/// Whether `f` is the inventory record of a scanned file with relative
/// path `rel` and size `size`.
pub open spec fn entry_of(f: FileEntry, rel: Seq<char>, size: u64) -> bool {
    &&& f.path@ == slashes(rel)
    &&& f.size == size
    &&& f.language == language_of_path(rel)
}

/// The inventory records of the scanned files, in scan order.
fn file_entries(scan: &ScanResult) -> (r: Vec<FileEntry>)
    ensures
        r@.len() == scan.files@.len(),
        forall|i: int| 0 <= i < r@.len() ==> entry_of(#[trigger] r@[i], scan.files@[i].rel@, scan.files@[i].size),
{
    let mut out: Vec<FileEntry> = Vec::new();
    let mut i: usize = 0;
    while i < scan.files.len()
        invariant
            i <= scan.files.len(),
            out@.len() == i,
            forall|k: int| 0 <= k < i ==> entry_of(#[trigger] out@[k], scan.files@[k].rel@, scan.files@[k].size),
        decreases scan.files.len() - i,
    {
        let f = &scan.files[i];
        out.push(FileEntry {
            path: forward_slashes(f.rel.as_str()),
            size: f.size,
            language: LanguageDetector.detect(f.rel.as_str()),
        });
        i = i + 1;
    }
    out
}

/// Analyses a scan, given the framework manifests and `package.json` files
/// that were read (relative path and text) and the content read for each
/// scanned file (`None` where it was not read).
pub fn analyze_scan(
    scan: &ScanResult,
    manifests: &Vec<(String, String)>,
    packages: &Vec<(String, String)>,
    contents: &Vec<Option<String>>,
    extractor: &ImportExtractor,
    module_detector: ModuleDetector,
) -> (r: AnalysisCore)
    ensures
        r.summary.files == scan.stats.files,
        r.summary.directories == scan.stats.directories,
        r.summary.project_roots == scan.project_roots@.len(),
        r.summary.bytes == scan.stats.bytes,
        forall|k: int| 0 <= k < r.languages@.len() ==> count_entry(scan.files@, #[trigger] r.languages@[k]),
        r.languages@.map_values(|p: (Language, usize)| p.0) == all_languages().filter(
            |l: Language| language_count(scan.files@, l) > 0,
        ),
        r.frameworks@ == all_frameworks().filter(|f: Framework| found_in(manifests@).contains(f)),
        metadata_of(r.metadata, scan.files@, scan.directories@),
        r.project_roots@ == scan.project_roots@,
        entries_sorted(entry_views(r.entry_points@)),
        entry_views(r.entry_points@).to_set() == (roots_entries(rels(scan.files@), views_of(scan.project_roots@))
            + packages_entries(rels(scan.files@), packages@)).to_set(),
        mviews(r.modules@).to_multiset() == discovered(
            detect_input(*scan, module_detector.min_files),
            views_of(scan.project_roots@),
        ).to_multiset(),
        sorted_by(r.modules@, |a: Module, b: Module| lex_le(a.root@, b.root@, true)),
        rel_views(r.relationships@) == dedup_adjacent(
            sort_rels(
                all_rels(
                    scan.files@,
                    contents@,
                    views_of(scan.project_roots@),
                    extractor.alias_list(),
                    extractor.max_bytes(),
                    scan.files@.len() as int,
                ),
            ),
        ),
        r.files@.len() == scan.files@.len(),
        forall|i: int| 0 <= i < r.files@.len() ==> entry_of(#[trigger] r.files@[i], scan.files@[i].rel@, scan.files@[i].size),
        r.directories@ == scan.directories@,
{
    let languages = LanguageDetector.count(&scan.files);
    let frameworks = FrameworkDetector.detect(manifests);
    let metadata = MetadataDetector.detect(scan);
    let entry_points = EntryPointDetector.detect(scan, packages);
    let relationships = extractor.extract(scan, contents);
    let modules = module_detector.detect(scan);
    let files = file_entries(scan);
    AnalysisCore {
        summary: AnalysisSummary {
            files: scan.stats.files,
            directories: scan.stats.directories,
            project_roots: scan.project_roots.len(),
            bytes: scan.stats.bytes,
        },
        languages,
        frameworks,
        metadata,
        project_roots: copy_strings(&scan.project_roots),
        entry_points,
        modules,
        relationships,
        files,
        directories: copy_strings(&scan.directories),
    }
}

} // verus!
