use std::collections::BTreeSet;

use ink_analysis::repo::analysis::{analyze_scan, AnalysisCore};
use ink_analysis::repo::framework_detector::is_framework_manifest;
use ink_analysis::repo::import_extractor::{ImportExtractor, DEFAULT_MAX_SOURCE_BYTES};
use ink_analysis::repo::language::{Framework, Language};
use ink_analysis::repo::models::{ModuleKind, ScanResult};
use ink_analysis::repo::module_detector::ModuleDetector;
use ink_analysis::repo::scan::{post_process, RawEntry};

const ROOT: &str = "/repo";

fn scan(files: &[(&str, &str)]) -> ScanResult {
    let mut dirs: BTreeSet<String> = BTreeSet::new();
    let mut raw = Vec::new();
    for (rel, content) in files {
        let parts: Vec<&str> = rel.split('/').collect();
        for end in 1..parts.len() {
            dirs.insert(parts[..end].join("/"));
        }
        raw.push(RawEntry {
            path: format!("{ROOT}/{rel}"),
            is_dir: false,
            size: content.len() as u64,
        });
    }
    for dir in dirs {
        raw.push(RawEntry {
            path: format!("{ROOT}/{dir}"),
            is_dir: true,
            size: 0,
        });
    }
    post_process(ROOT, raw, 0, 0)
}

/// Analyses an in-memory repository as the pipeline does over a disk: the
/// texts it reads are the manifests, the `package.json` files and the
/// sources the extractor wants, each within the size bound.
fn analyze_with(files: &[(&str, &str)], max_source_bytes: u64) -> AnalysisCore {
    let result = scan(files);
    let text_of = |rel: &str| -> String {
        files.iter().find(|(p, _)| *p == rel).map(|(_, c)| c.to_string()).unwrap()
    };
    let name_of = |rel: &str| -> String { rel.rsplit('/').next().unwrap_or(rel).to_string() };
    let mut manifests = Vec::new();
    let mut packages = Vec::new();
    for f in &result.files {
        let name = name_of(&f.rel);
        if is_framework_manifest(&name) && f.size <= max_source_bytes {
            manifests.push((f.rel.clone(), text_of(&f.rel)));
        }
        if name == "package.json" && f.size <= 1_000_000 {
            packages.push((f.rel.clone(), text_of(&f.rel)));
        }
    }
    let extractor = ImportExtractor::new(max_source_bytes, Vec::new());
    let contents: Vec<Option<String>> = result
        .files
        .iter()
        .map(|f| if extractor.wants(f) { Some(text_of(&f.rel)) } else { None })
        .collect();
    analyze_scan(
        &result,
        &manifests,
        &packages,
        &contents,
        &extractor,
        ModuleDetector::default(),
    )
}

fn analyze(files: &[(&str, &str)]) -> AnalysisCore {
    analyze_with(files, DEFAULT_MAX_SOURCE_BYTES)
}

fn count_of(analysis: &AnalysisCore, language: Language) -> usize {
    analysis
        .languages
        .iter()
        .find(|(l, _)| *l == language)
        .map(|(_, n)| *n)
        .unwrap_or(0)
}

#[test]
fn full_pipeline_analysis() {
    let analysis = analyze(&[
        ("src/main.rs", "mod routes;\nuse crate::routes::user;"),
        ("src/routes/mod.rs", "pub mod user;"),
        ("src/routes/user.rs", "pub fn handle(){}"),
        ("README.md", "# demo"),
    ]);
    assert_eq!(analysis.summary.files, 4);
    assert_eq!(count_of(&analysis, Language::Rust), 3);
    assert_eq!(count_of(&analysis, Language::Markdown), 1);
    assert_eq!(analysis.entry_points.len(), 1);
    assert_eq!(analysis.entry_points[0].path, "src/main.rs");
    assert!(!analysis.relationships.is_empty());
    assert!(!analysis.modules.is_empty());
}

#[test]
fn repeated_analysis_is_deterministic() {
    let files = [
        ("Cargo.toml", "[package]\nname=\"x\""),
        ("src/main.rs", "mod m;\nuse crate::m::f;"),
        ("src/m.rs", "pub fn f(){}"),
    ];
    let a = analyze(&files);
    let b = analyze(&files);
    assert_eq!(format!("{a:?}"), format!("{b:?}"));
}

#[test]
fn every_supported_language_detected() {
    let samples: &[(&str, Language)] = &[
        ("src/main.rs", Language::Rust),
        ("app.ts", Language::TypeScript),
        ("app.tsx", Language::TypeScript),
        ("app.js", Language::JavaScript),
        ("app.jsx", Language::JavaScript),
        ("main.py", Language::Python),
        ("main.go", Language::Go),
        ("Main.java", Language::Java),
        ("Program.cs", Language::CSharp),
        ("util.c", Language::C),
        ("util.h", Language::C),
        ("util.cpp", Language::Cpp),
        ("data.json", Language::Json),
        ("config.yaml", Language::Yaml),
        ("config.toml", Language::Toml),
        ("README.md", Language::Markdown),
    ];
    for (rel, language) in samples {
        let analysis = analyze(&[(rel, "x")]);
        assert_eq!(
            count_of(&analysis, *language),
            1,
            "{rel} should be counted as {language:?}"
        );
    }
}

#[test]
fn every_supported_framework_detected() {
    let analysis = analyze(&[
        (
            "package.json",
            r#"{"dependencies":{"next":"1.0.0","react":"1.0.0","express":"1.0.0","vite":"1.0.0"},"devDependencies":{"@nestjs/core":"1.0.0"}}"#,
        ),
        ("requirements.txt", "fastapi==0.1\nflask==3.0\ndjango==5.0\n"),
        (
            "Cargo.toml",
            "[dependencies]\naxum = \"0.7\"\nactix-web = \"4\"\nrocket = \"0.5\"\n",
        ),
    ]);
    for framework in Framework::all() {
        assert!(
            analysis.frameworks.contains(&framework),
            "expected framework {framework:?} to be detected"
        );
    }
}

#[test]
fn monorepo_layout_and_modules_from_generated_repo() {
    let analysis = analyze(&[
        ("pnpm-workspace.yaml", "packages:\n  - apps/*\n  - packages/*\n"),
        ("apps/web/package.json", "{}"),
        ("apps/web/src/pages/home.tsx", "export default function Home() {}"),
        ("apps/web/src/features/auth/login.ts", "export const login = 1;"),
        ("packages/shared/package.json", "{}"),
        ("packages/shared/src/format.ts", "export function fmt(s: string) { return s; }"),
    ]);
    // Project roots: root, apps/web, packages/shared.
    assert_eq!(analysis.summary.project_roots, 3);
    assert!(analysis
        .modules
        .iter()
        .any(|m| m.name == "web" && m.kind == ModuleKind::Package));
    assert!(analysis
        .modules
        .iter()
        .any(|m| m.name == "shared" && m.kind == ModuleKind::Package));
    assert!(analysis
        .modules
        .iter()
        .any(|m| m.name == "features" && m.kind == ModuleKind::Feature));
    assert!(analysis
        .modules
        .iter()
        .any(|m| m.name == "features" && m.root == "apps/web/src/features"));
}

#[test]
fn missing_entry_points_for_library_only_repo() {
    let analysis = analyze(&[
        ("math.ts", "export const add = (a: number, b: number) => a + b;"),
        ("string.ts", "export const cap = (s: string) => s.toUpperCase();"),
        ("README.md", "# utilities"),
    ]);
    assert!(analysis.entry_points.is_empty());
    // A flat layout without nested folders produces no modules.
    assert!(analysis.modules.is_empty());
}

#[test]
fn import_extraction_skips_large_files_and_binary() {
    let blob = "export const y = 1;\n// ".repeat(1 << 20);
    let analysis = analyze_with(
        &[
            ("src/main.ts", "import { x } from './x';"),
            ("src/x.ts", "export const x = 1;"),
            ("src/huge.ts", &blob),
        ],
        1024 * 1024,
    );
    assert!(analysis
        .relationships
        .iter()
        .any(|r| r.source == "src/main.ts" && r.target == "src/x.ts"));
    // huge.ts is still counted as a file even though it was not analysed.
    assert_eq!(analysis.summary.files, 3);
}

#[test]
fn inventory_records_paths_sizes_and_languages() {
    let analysis = analyze(&[("src/lib.rs", "pub fn f() {}"), ("notes.txt", "hello")]);
    let files: Vec<(&str, u64, Option<Language>)> = analysis
        .files
        .iter()
        .map(|f| (f.path.as_str(), f.size, f.language))
        .collect();
    assert_eq!(
        files,
        vec![("notes.txt", 5, None), ("src/lib.rs", 13, Some(Language::Rust))]
    );
    assert_eq!(analysis.directories, vec!["src".to_string()]);
    assert_eq!(analysis.project_roots, vec![String::new()]);
}
