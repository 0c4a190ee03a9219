use std::collections::BTreeSet;
use ink_analysis::repo::scan::{default_ignored_dirs, is_ignored_dir};

use ink_analysis::repo::entrypoint_detector::EntryPointDetector;
use ink_analysis::repo::framework_detector::{is_framework_manifest, FrameworkDetector};
use ink_analysis::repo::import_extractor::{
    expand_braces, first_brace_group, split_top_level, ImportExtractor, DEFAULT_MAX_SOURCE_BYTES,
};
use ink_analysis::repo::language::Framework;
use ink_analysis::repo::metadata_detector::MetadataDetector;
use ink_analysis::repo::models::{
    EntryPoint, Module, ModuleKind, Relationship, RelationshipKind, ScanResult,
};
use ink_analysis::repo::module_detector::ModuleDetector;
use ink_analysis::repo::scan::{post_process, RawEntry};

const ROOT: &str = "/repo";

/// The entries a walk of a repository holding `files` (relative path and
/// content) reports: every file and every directory above one.
fn walk(files: &[(&str, &str)], extra_dirs: &[&str]) -> Vec<RawEntry> {
    let mut dirs: BTreeSet<String> = BTreeSet::new();
    let mut raw = Vec::new();
    for (rel, content) in files {
        let parts: Vec<&str> = rel.split('/').collect();
        for end in 1..parts.len() {
            dirs.insert(parts[..end].join("/"));
        }
        raw.push(RawEntry {
            path: format!("{ROOT}/{rel}"),
            is_dir: false,
            size: content.len() as u64,
        });
    }
    for dir in extra_dirs {
        dirs.insert((*dir).to_string());
    }
    for dir in dirs {
        raw.push(RawEntry {
            path: format!("{ROOT}/{dir}"),
            is_dir: true,
            size: 0,
        });
    }
    raw
}

fn scan(files: &[(&str, &str)]) -> ScanResult {
    post_process(ROOT, walk(files, &[]), 0, 0)
}

fn content_of<'a>(files: &[(&str, &'a str)], rel: &str) -> &'a str {
    files
        .iter()
        .find(|(path, _)| *path == rel)
        .map(|(_, content)| *content)
        .unwrap()
}

fn file_name(rel: &str) -> &str {
    rel.rsplit('/').next().unwrap_or(rel)
}

fn detect_entry_points(files: &[(&str, &str)]) -> Vec<EntryPoint> {
    let result = scan(files);
    let packages: Vec<(String, String)> = result
        .files
        .iter()
        .filter(|file| file_name(&file.rel) == "package.json")
        .map(|file| (file.rel.clone(), content_of(files, &file.rel).to_string()))
        .collect();
    EntryPointDetector.detect(&result, &packages)
}

fn detect_frameworks(files: &[(&str, &str)], max_config_bytes: usize) -> Vec<Framework> {
    let result = scan(files);
    let manifests: Vec<(String, String)> = result
        .files
        .iter()
        .filter(|file| is_framework_manifest(file_name(&file.rel)))
        .map(|file| (file.rel.clone(), content_of(files, &file.rel).to_string()))
        .filter(|(_, text)| text.len() <= max_config_bytes)
        .collect();
    FrameworkDetector.detect(&manifests)
}

fn extract_with(extractor: &ImportExtractor, files: &[(&str, &str)]) -> Vec<Relationship> {
    let result = scan(files);
    let contents: Vec<Option<String>> = result
        .files
        .iter()
        .map(|file| {
            if extractor.wants(file) {
                Some(content_of(files, &file.rel).to_string())
            } else {
                None
            }
        })
        .collect();
    extractor.extract(&result, &contents)
}

fn relationships(files: &[(&str, &str)]) -> Vec<Relationship> {
    extract_with(&ImportExtractor::default(), files)
}

fn detect_modules(files: &[(&str, &str)]) -> Vec<Module> {
    ModuleDetector::default().detect(&scan(files))
}

// Scanning.

#[test]
fn scans_basic_layout() {
    let files = [
        ("src/main.rs", "fn main() {}"),
        ("src/lib.rs", "pub fn f() {}"),
        ("README.md", "# hi"),
        ("src/nested/deep/file.ts", "export const x = 1;"),
        ("src/sub/keep/.env.example", "TOKEN=abc"),
    ];
    let result = scan(&files);
    assert_eq!(result.stats.files, 5);
    assert!(result.directories.contains(&"src".to_string()));
    assert!(result.directories.contains(&"src/nested/deep".to_string()));
    assert_eq!(result.project_roots, vec![String::new()]);
    let paths: Vec<_> = result.files.iter().map(|f| f.rel.clone()).collect();
    let mut sorted = paths.clone();
    sorted.sort();
    assert_eq!(paths, sorted);
}

#[test]
fn counts_bytes() {
    let result = scan(&[("a.txt", "abcde"), ("b.txt", "xy")]);
    assert_eq!(result.stats.bytes, 7);
}

#[test]
fn detects_project_roots_from_manifests() {
    let result = scan(&[
        ("package.json", "{}"),
        ("apps/web/package.json", "{}"),
        ("packages/ui/Cargo.toml", "[package]"),
    ]);
    assert_eq!(
        result.project_roots,
        vec![
            String::new(),
            "apps/web".to_string(),
            "packages/ui".to_string(),
        ]
    );
}

#[test]
fn scan_keeps_absolute_paths_and_walk_order_independence() {
    let files = [("b/x.rs", "x"), ("a/y.rs", "yy")];
    let mut raw = walk(&files, &[]);
    raw.reverse();
    let result = post_process(ROOT, raw, 3, 11);
    let rels: Vec<_> = result.files.iter().map(|f| f.rel.as_str()).collect();
    assert_eq!(rels, vec!["a/y.rs", "b/x.rs"]);
    assert_eq!(result.files[0].path, "/repo/a/y.rs");
    assert_eq!(result.directories, vec!["a".to_string(), "b".to_string()]);
    assert_eq!(result.stats.directories, 2);
    assert_eq!(result.stats.scan_errors, 3);
    assert_eq!(result.duration_ns, 11);
}

// Entry points.

#[test]
fn multiple_entry_points_and_order() {
    let entries = detect_entry_points(&[
        ("src/main.rs", "fn main() {}"),
        ("src/lib.rs", "pub fn f(){}"),
        ("server.js", "console.log(1)"),
        ("src/app/page.tsx", "export default function P(){}"),
    ]);
    let paths: Vec<&str> = entries.iter().map(|e| e.path.as_str()).collect();
    assert_eq!(
        paths,
        vec!["src/main.rs", "src/lib.rs", "server.js", "src/app/page.tsx"]
    );
    for w in entries.windows(2) {
        assert!(w[0].confidence_millionths >= w[1].confidence_millionths);
    }
}

#[test]
fn missing_entry_points_is_empty() {
    let entries = detect_entry_points(&[
        ("src/util/helper.ts", "export const h = 1;"),
        ("README.md", "# x"),
    ]);
    assert!(entries.is_empty());
}

#[test]
fn monorepo_layout_detects_per_package() {
    let entries = detect_entry_points(&[
        ("package.json", "{}"),
        ("apps/api/package.json", r#"{"main":"src/index.ts"}"#),
        ("apps/api/src/index.ts", "console.log('api')"),
        ("apps/cli/package.json", "{}"),
        ("apps/cli/src/main.ts", "console.log('cli')"),
    ]);
    let paths: Vec<&str> = entries.iter().map(|e| e.path.as_str()).collect();
    assert!(paths.contains(&"apps/api/src/index.ts"));
    assert!(paths.contains(&"apps/cli/src/main.ts"));
    for entry in &entries {
        assert!(entry.path.starts_with("apps/"), "unexpected: {}", entry.path);
    }
}

#[test]
fn python_entry_points() {
    let entries = detect_entry_points(&[
        ("main.py", "print('hi')"),
        ("manage.py", "from django.core.management import execute"),
    ]);
    let paths: Vec<&str> = entries.iter().map(|e| e.path.as_str()).collect();
    assert_eq!(paths, vec!["main.py", "manage.py"]);
}

#[test]
fn rust_bin_targets() {
    let entries = detect_entry_points(&[("src/bin/tools.rs", "fn main(){}")]);
    assert_eq!(entries[0].path, "src/bin/tools.rs");
    assert_eq!(entries[0].heuristic, "rust_bin_target");
}

#[test]
fn vscode_extension_entry_point() {
    let entries = detect_entry_points(&[
        ("package.json", r#"{"main":"./out/extension.js"}"#),
        ("src/extension.ts", "import * as vscode from 'vscode';"),
    ]);
    assert!(entries.iter().any(|e| e.path == "src/extension.ts"));
}

// Frameworks.

#[test]
fn detects_next_react_from_package_json() {
    let frameworks = detect_frameworks(
        &[(
            "package.json",
            r#"{"dependencies":{"next":"14.0.0","react":"18.2.0","express":"4.19.0","vite":"5.0.0"}}"#,
        )],
        1_000_000,
    );
    assert_eq!(
        frameworks,
        vec![
            Framework::NextJs,
            Framework::React,
            Framework::Express,
            Framework::Vite
        ]
    );
}

#[test]
fn detects_nestjs_from_dev_dependencies() {
    let frameworks = detect_frameworks(
        &[("package.json", r#"{"devDependencies":{"@nestjs/core":"^10.0.0"}}"#)],
        1_000_000,
    );
    assert_eq!(frameworks, vec![Framework::NestJs]);
}

#[test]
fn detects_axum_from_cargo() {
    let frameworks = detect_frameworks(
        &[(
            "Cargo.toml",
            "[dependencies]\naxum = \"0.7\"\ntokio = { version = \"1\", features = [\"full\"] }\n",
        )],
        1_000_000,
    );
    assert_eq!(frameworks, vec![Framework::Axum]);
}

#[test]
fn detects_fastapi_flask_django() {
    let frameworks = detect_frameworks(
        &[
            ("requirements.txt", "fastapi==0.111.0\nuvicorn[standard]\n"),
            ("server/pyproject.toml", "[project]\ndependencies = [\"django>=4.2\"]\n"),
            ("legacy/app.py", "# flask app\nimport flask\n"),
        ],
        1_000_000,
    );
    assert_eq!(frameworks, vec![Framework::FastApi, Framework::Django]);
}

#[test]
fn next_config_fallback() {
    let frameworks = detect_frameworks(&[("next.config.mjs", "export default {}")], 1_000_000);
    assert_eq!(frameworks, vec![Framework::NextJs]);
}

#[test]
fn empty_repo_detects_nothing() {
    let frameworks = detect_frameworks(&[("filler.txt", "nothing")], 1_000_000);
    assert!(frameworks.is_empty());
}

#[test]
fn scan_options_used_for_bounds() {
    // A bound far below the manifest's size: nothing is read, nothing found.
    let frameworks = detect_frameworks(&[("package.json", r#"{"dependencies":{"next":"1.0.0"}}"#)], 8);
    assert!(frameworks.is_empty());
}

// Imports.

#[test]
fn relative_typescript_imports() {
    let rels = relationships(&[
        ("src/page.tsx", "import Navbar from './components/Navbar';"),
        ("src/components/Navbar.tsx", "export default function N(){}"),
        ("src/components/Navbar.css", ".nav {}"),
    ]);
    assert!(rels.iter().any(|r| {
        r.source == "src/page.tsx"
            && r.target == "src/components/Navbar.tsx"
            && r.kind == RelationshipKind::Import
            && r.resolved
    }));
}

#[test]
fn alias_imports_resolve_to_project_root() {
    let rels = relationships(&[
        ("package.json", "{}"),
        ("src/app/page.tsx", "import { api } from '@/lib/api';"),
        ("src/lib/api.ts", "export const api = 1;"),
    ]);
    assert!(rels
        .iter()
        .any(|r| r.source == "src/app/page.tsx" && r.target == "src/lib/api.ts"));
}

#[test]
fn nested_and_index_imports() {
    let rels = relationships(&[
        ("src/a.ts", "import b from './b';\nimport c from './features/index';"),
        ("src/b.ts", "export default 1;"),
        ("src/features/index.ts", "export default 2;"),
    ]);
    let targets: Vec<_> = rels
        .iter()
        .filter(|r| r.source == "src/a.ts" && r.resolved)
        .map(|r| r.target.as_str())
        .collect();
    assert!(targets.contains(&"src/b.ts"));
    assert!(targets.contains(&"src/features/index.ts"));
}

#[test]
fn javascript_requires_and_exports() {
    let rels = relationships(&[
        ("server.js", "const a = require('./lib/a');\nexport { default } from './b';"),
        ("lib/a.js", "module.exports = 1;"),
        ("b.js", "export default 2;"),
    ]);
    assert!(rels.iter().any(|r| {
        r.source == "server.js" && r.target == "lib/a.js" && r.kind == RelationshipKind::Import
    }));
    assert!(rels.iter().any(|r| {
        r.source == "server.js" && r.target == "b.js" && r.kind == RelationshipKind::Export
    }));
}

#[test]
fn bare_imports_are_skipped_not_reported() {
    let rels = relationships(&[(
        "app.ts",
        "import React from 'react';\nimport { join } from 'node:path';",
    )]);
    assert!(rels.is_empty());
}

#[test]
fn scoped_packages_are_external_not_aliases() {
    let rels = relationships(&[
        (
            "src/app.ts",
            "import { run } from '@vscode/test-electron';\nimport { x } from '@org/lib';",
        ),
        ("src/vscode/test-electron.ts", "export const run = 1;"),
    ]);
    // Neither is resolved to `src/vscode/...` nor reported unresolved.
    assert!(rels.is_empty());
}

#[test]
fn scoped_like_custom_alias_still_resolves() {
    let extractor = ImportExtractor::new(
        DEFAULT_MAX_SOURCE_BYTES,
        vec![("@components".to_string(), "src/components".to_string())],
    );
    let rels = extract_with(
        &extractor,
        &[
            ("package.json", "{}"),
            ("src/app.ts", "import { button } from '@components/Button';"),
            ("src/components/Button.ts", "export const button = 1;"),
        ],
    );
    assert!(rels.iter().any(|r| {
        r.source == "src/app.ts" && r.target == "src/components/Button.ts" && r.resolved
    }));
}

#[test]
fn rust_super_from_leaf_file_resolves_in_same_directory() {
    let rels = relationships(&[
        ("Cargo.toml", "[package]\nname=\"demo\""),
        (
            "src/core/cache.rs",
            "use super::registry::RegistryResponse;\nuse super::super::shared::Shared;",
        ),
        ("src/core/registry.rs", "pub struct RegistryResponse;"),
        ("src/shared.rs", "pub struct Shared;"),
    ]);
    assert!(rels.iter().any(|r| {
        r.source == "src/core/cache.rs"
            && r.target == "src/core/registry.rs"
            && r.kind == RelationshipKind::Import
            && r.resolved
    }));
    // `super::super` from a leaf climbs one extra level.
    assert!(rels
        .iter()
        .any(|r| r.source == "src/core/cache.rs" && r.target == "src/shared.rs" && r.resolved));
}

#[test]
fn rust_super_from_mod_file_pops_one_level() {
    let rels = relationships(&[
        ("Cargo.toml", "[package]\nname=\"demo\""),
        ("src/core/mod.rs", "use super::shared::Shared;"),
        ("src/shared.rs", "pub struct Shared;"),
    ]);
    assert!(rels.iter().any(|r| {
        r.source == "src/core/mod.rs"
            && r.target == "src/shared.rs"
            && r.kind == RelationshipKind::Import
            && r.resolved
    }));
}

#[test]
fn unresolved_relative_imports_reported() {
    let rels = relationships(&[("src/missing.ts", "import x from './does-not-exist';")]);
    assert!(rels.iter().any(|r| {
        r.source == "src/missing.ts" && r.target == "./does-not-exist" && !r.resolved
    }));
}

#[test]
fn rust_crate_and_mod_resolution() {
    let rels = relationships(&[
        ("Cargo.toml", "[package]\nname=\"demo\""),
        ("src/main.rs", "mod routes;\nuse crate::routes::user;\nuse crate::db;"),
        ("src/routes/mod.rs", "pub mod user;\npub mod health;"),
        ("src/routes/user.rs", "pub fn handle() {}"),
        ("src/routes/health.rs", "pub fn health() {}"),
        ("src/db.rs", "pub fn connect() {}"),
    ]);
    assert!(rels.iter().any(|r| {
        r.source == "src/main.rs"
            && r.target == "src/routes/mod.rs"
            && r.kind == RelationshipKind::ModuleReference
    }));
    assert!(rels
        .iter()
        .any(|r| r.source == "src/main.rs" && r.target == "src/routes/user.rs"));
    assert!(rels
        .iter()
        .any(|r| r.source == "src/main.rs" && r.target == "src/db.rs"));
    assert!(rels.iter().any(|r| {
        r.source == "src/routes/mod.rs"
            && r.target == "src/routes/user.rs"
            && r.kind == RelationshipKind::ModuleReference
    }));
    assert!(rels
        .iter()
        .any(|r| r.source == "src/routes/mod.rs" && r.target == "src/routes/health.rs"));
}

#[test]
fn rust_brace_group_use() {
    let rels = relationships(&[
        ("src/main.rs", "use crate::a::{b, c};"),
        ("src/a/b.rs", "pub fn b(){}"),
        ("src/a/c.rs", "pub fn c(){}"),
    ]);
    assert!(rels.iter().any(|r| r.target == "src/a/b.rs"));
    assert!(rels.iter().any(|r| r.target == "src/a/c.rs"));
}

#[test]
fn python_relative_and_absolute() {
    let rels = relationships(&[
        ("app/__init__.py", ""),
        ("app/routers/__init__.py", ""),
        ("app/routers/users.py", "from ..models import User\nfrom . import deps"),
        ("app/models.py", "class User: pass"),
        ("app/routers/deps.py", "def dep(): pass"),
        ("app/main.py", "import app.models\nfrom app.models import User"),
    ]);
    assert!(rels
        .iter()
        .any(|r| r.source == "app/routers/users.py" && r.target == "app/models.py"));
    assert!(rels
        .iter()
        .any(|r| r.source == "app/routers/users.py" && r.target == "app/routers/deps.py"));
    assert!(rels
        .iter()
        .any(|r| r.source == "app/main.py" && r.target == "app/models.py"));
}

#[test]
fn expansion_is_correct() {
    let expanded = expand_braces("crate::{a, b}::x");
    assert_eq!(expanded, vec!["crate::a::x", "crate::b::x"]);
    let nested = expand_braces("a::{b, {c, d}}");
    assert_eq!(nested, vec!["a::b", "a::c", "a::d"]);
}

#[test]
fn relationships_come_out_sorted_and_once() {
    let rels = relationships(&[
        ("src/b.ts", "import a from './a';\nimport a2 from './a';"),
        ("src/a.ts", "import b from './b';"),
    ]);
    let pairs: Vec<(&str, &str)> = rels
        .iter()
        .map(|r| (r.source.as_str(), r.target.as_str()))
        .collect();
    assert_eq!(pairs, vec![("src/a.ts", "src/b.ts"), ("src/b.ts", "src/a.ts")]);
}

#[test]
fn oversized_sources_are_not_read() {
    let extractor = ImportExtractor::new(10, Vec::new());
    let rels = extract_with(
        &extractor,
        &[
            ("src/a.ts", "import b from './b';"),
            ("src/b.ts", "export default 1;"),
        ],
    );
    assert!(rels.is_empty());
}

// Metadata.

#[test]
fn detects_package_managers_and_build_systems() {
    let meta = MetadataDetector.detect(&scan(&[
        ("package.json", "{}"),
        ("pnpm-lock.yaml", ""),
        ("Cargo.toml", ""),
        ("Makefile", "all:"),
        (".github/workflows/ci.yml", "name: ci"),
        ("Dockerfile", "FROM scratch"),
        (".env.example", "FOO=bar"),
        ("tsconfig.json", "{}"),
    ]));
    assert!(meta.package_managers.iter().any(|p| p == "pnpm"));
    assert!(meta.package_managers.iter().any(|p| p == "cargo"));
    assert!(!meta.package_managers.iter().any(|p| p == "npm"));
    assert!(meta.build_systems.iter().any(|b| b == "make"));
    assert!(meta.ci.iter().any(|c| c == "github_actions"));
    assert!(meta.has_docker);
    assert!(meta.config_files.iter().any(|c| c.ends_with("tsconfig.json")));
}

#[test]
fn infers_npm_only_without_js_lockfile() {
    let meta = MetadataDetector.detect(&scan(&[("package.json", "{}")]));
    assert!(meta.package_managers.iter().any(|p| p == "npm"));
    assert_eq!(meta.package_managers, vec!["npm".to_string()]);
}

#[test]
fn detects_nested_ci_configured() {
    let meta = MetadataDetector.detect(&scan(&[(".circleci/config.yml", "version: 2")]));
    assert!(meta.ci.iter().any(|c| c == "circleci"));
}

#[test]
fn manifest_lookup_works() {
    let result = scan(&[("packages/ui/package.json", "{}")]);
    let file_set: Vec<String> = result.files.iter().map(|f| f.rel.clone()).collect();
    assert!(MetadataDetector::contains_manifest("packages/ui", &file_set));
    assert!(!MetadataDetector::contains_manifest("packages", &file_set));
}

// Modules.

#[test]
fn feature_folders() {
    let modules = detect_modules(&[
        ("src/auth/mod.rs", "pub mod login;"),
        ("src/auth/login.rs", "pub fn login() {}"),
        ("src/database/db.rs", "pub fn connect() {}"),
        ("src/main.rs", "mod auth;"),
    ]);
    assert_eq!(modules.len(), 2);
    assert_eq!(modules[0].name, "auth");
    assert_eq!(modules[0].kind, ModuleKind::Feature);
    assert_eq!(modules[0].root, "src/auth");
    assert_eq!(modules[0].files.len(), 2);
    assert_eq!(modules[1].name, "database");
}

#[test]
fn layered_architecture() {
    let modules = detect_modules(&[
        ("src/controllers/users.ts", "export {}"),
        ("src/models/user.ts", "export {}"),
        ("src/routes/index.ts", "export {}"),
        ("src/services/auth.ts", "export {}"),
    ]);
    let kinds: Vec<ModuleKind> = modules.iter().map(|m| m.kind).collect();
    assert_eq!(
        kinds,
        vec![
            ModuleKind::Layer,
            ModuleKind::Layer,
            ModuleKind::Layer,
            ModuleKind::Layer
        ]
    );
}

#[test]
fn monorepo_packages() {
    let modules = detect_modules(&[
        ("package.json", "{}"),
        ("apps/web/package.json", "{}"),
        ("apps/web/src/index.ts", "export {}"),
        ("apps/api/package.json", "{}"),
        ("apps/api/src/main.ts", "export {}"),
        ("packages/ui/package.json", "{}"),
        ("packages/ui/src/button.tsx", "export {}"),
    ]);
    let names: Vec<&str> = modules.iter().map(|m| m.name.as_str()).collect();
    assert_eq!(names, vec!["api", "web", "ui"]);
    assert!(modules.iter().all(|m| m.kind == ModuleKind::Package));
}

#[test]
fn empty_directories_not_modules() {
    let result = post_process(ROOT, walk(&[("src/main.rs", "fn main(){}")], &["src/empty"]), 0, 0);
    let modules = ModuleDetector::default().detect(&result);
    assert!(modules.is_empty());
}

#[test]
fn media_asset_folder_not_a_module() {
    let modules = detect_modules(&[
        ("src/main.ts", "console.log('x')"),
        ("media/icon.svg", "<svg/>"),
        ("media/logo.png", "png"),
    ]);
    assert!(modules.iter().all(|m| m.name != "media"));
}

#[test]
fn min_files_threshold() {
    let result = scan(&[("src/auth/mod.rs", "pub mod x;")]);
    let modules = ModuleDetector { min_files: 2 }.detect(&result);
    assert!(modules.is_empty());
}

#[test]
fn ignored_directories_include_caches_and_vendored_code() {
    let ignored = default_ignored_dirs();
    assert_eq!(ignored.len(), 42);
    assert!(is_ignored_dir(".zig-cache", &ignored));
    assert!(is_ignored_dir("node_modules", &ignored));
    assert!(is_ignored_dir(".git", &ignored));
    assert!(!is_ignored_dir("src", &ignored));
    assert!(!is_ignored_dir("Node_modules", &ignored));
}

#[test]
fn brace_groups_split_at_top_level_commas() {
    assert_eq!(
        first_brace_group("a::{b, {c, d}}::e"),
        Some(("a::".to_string(), "b, {c, d}".to_string(), "::e".to_string()))
    );
    assert_eq!(first_brace_group("a::b"), None);
    assert_eq!(split_top_level(" b , {c, d},, e "), vec!["b", "{c, d}", "e"]);
    assert!(split_top_level(" , ").is_empty());
}

#[test]
fn buildkite_file_announces_buildkite() {
    let meta = MetadataDetector.detect(&scan(&[("buildkite.yml", "steps: []")]));
    assert_eq!(meta.ci, vec!["buildkite".to_string()]);
}

#[test]
fn manifest_lookup_compares_components() {
    let file_set = vec!["packages/ui/package.json".to_owned(), "./tools/Cargo.toml".to_owned()];
    assert!(MetadataDetector::contains_manifest("packages/ui/", &file_set));
    assert!(MetadataDetector::contains_manifest("packages//ui", &file_set));
    assert!(MetadataDetector::contains_manifest("packages/./ui", &file_set));
    assert!(!MetadataDetector::contains_manifest("packages", &file_set));
    assert!(MetadataDetector::contains_manifest("./tools", &file_set));
    assert!(!MetadataDetector::contains_manifest("tools", &file_set));
}
