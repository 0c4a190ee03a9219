use std::str::FromStr;

use ink_analysis::repo::language::{Ecosystem, Framework, Language};
use ink_analysis::repo::language_detector::LanguageDetector;
use ink_analysis::repo::models::ScannedFile;
use ink_analysis::paths::normalize_lexical;

#[test]
fn detects_every_supported_language() {
    let detector = LanguageDetector;
    assert_eq!(detector.detect("src/main.rs"), Some(Language::Rust));
    assert_eq!(detector.detect("a.ts"), Some(Language::TypeScript));
    assert_eq!(detector.detect("component.tsx"), Some(Language::TypeScript));
    assert_eq!(detector.detect("app.js"), Some(Language::JavaScript));
    assert_eq!(detector.detect("app.jsx"), Some(Language::JavaScript));
    assert_eq!(detector.detect("main.py"), Some(Language::Python));
    assert_eq!(detector.detect("main.go"), Some(Language::Go));
    assert_eq!(detector.detect("Main.java"), Some(Language::Java));
    assert_eq!(detector.detect("Program.cs"), Some(Language::CSharp));
    assert_eq!(detector.detect("util.c"), Some(Language::C));
    assert_eq!(detector.detect("util.h"), Some(Language::C));
    assert_eq!(detector.detect("util.cpp"), Some(Language::Cpp));
    assert_eq!(detector.detect("util.hpp"), Some(Language::Cpp));
    assert_eq!(detector.detect("config.json"), Some(Language::Json));
    assert_eq!(detector.detect("config.yaml"), Some(Language::Yaml));
    assert_eq!(detector.detect("config.yml"), Some(Language::Yaml));
    assert_eq!(detector.detect("Cargo.toml"), Some(Language::Toml));
    assert_eq!(detector.detect("README.md"), Some(Language::Markdown));
}

#[test]
fn detects_uppercase_extensions() {
    let detector = LanguageDetector;
    assert_eq!(detector.detect("Main.PY"), Some(Language::Python));
    assert_eq!(detector.detect("App.TS"), Some(Language::TypeScript));
}

#[test]
fn unknown_files_return_none() {
    let detector = LanguageDetector;
    assert_eq!(detector.detect("Makefile"), None);
    assert_eq!(detector.detect("data.csv"), None);
    assert_eq!(detector.detect("no_extension"), None);
}

#[test]
fn counts_language_histogram() {
    let detector = LanguageDetector;
    let files = vec![
        ScannedFile {
            path: "/repo/a.rs".into(),
            rel: "a.rs".into(),
            size: 1,
        },
        ScannedFile {
            path: "/repo/b.rs".into(),
            rel: "b.rs".into(),
            size: 1,
        },
        ScannedFile {
            path: "/repo/c.ts".into(),
            rel: "c.ts".into(),
            size: 1,
        },
        ScannedFile {
            path: "/repo/README".into(),
            rel: "README".into(),
            size: 1,
        },
    ];
    let counts = detector.count(&files);
    let get = |l: Language| counts.iter().find(|(k, _)| *k == l).map(|(_, n)| *n);
    assert_eq!(get(Language::Rust), Some(2));
    assert_eq!(get(Language::TypeScript), Some(1));
    assert_eq!(get(Language::Markdown), Some(1));
}

#[test]
fn display_names_round_trip() {
    for framework in Framework::all() {
        assert_eq!(Framework::from_str(framework.display_name()), Ok(framework));
    }
}

#[test]
fn ecosystems_assigned() {
    assert_eq!(Framework::NextJs.ecosystem(), Ecosystem::Javascript);
    assert_eq!(Framework::FastApi.ecosystem(), Ecosystem::Python);
    assert_eq!(Framework::Axum.ecosystem(), Ecosystem::Rust);
}

#[test]
fn as_str_matches_from_str() {
    for language in Language::all() {
        assert_eq!(Language::from_str(language.as_str()), Ok(language));
    }
}

#[test]
fn unknown_languages_rejected() {
    assert!(Language::from_str("brainfuck").is_err());
    assert!(Language::from_str("").is_err());
}

#[test]
fn import_analysis_capable_only_source_languages() {
    assert!(Language::Rust.supports_import_analysis());
    assert!(Language::TypeScript.supports_import_analysis());
    assert!(Language::JavaScript.supports_import_analysis());
    assert!(Language::Python.supports_import_analysis());
    assert!(!Language::Json.supports_import_analysis());
    assert!(!Language::Markdown.supports_import_analysis());
}

#[test]
fn trailing_slash_keeps_the_file_name() {
    let detector = LanguageDetector;
    assert_eq!(detector.detect("src/main.rs/"), Some(Language::Rust));
    assert_eq!(detector.detect("lib/util.py//"), Some(Language::Python));
}

#[test]
fn normalizing_twice_changes_nothing() {
    for p in ["a/./b/../c", "/x//y/./z/..", "../../a/b", "./", "/", "", "a/b/c/"] {
        let once = normalize_lexical(p);
        let twice = normalize_lexical(&once);
        assert_eq!(once, twice);
        for seg in once.split('/').filter(|s| !s.is_empty()) {
            assert!(seg != "." && seg != "..");
        }
    }
    assert_eq!(normalize_lexical("a/./b/../c"), "a/c");
    assert_eq!(normalize_lexical("/x//y/./z/.."), "/x/y");
}

#[test]
fn file_names_follow_path_components() {
    let detector = LanguageDetector;
    assert_eq!(detector.detect("a.rs/."), Some(Language::Rust));
    assert_eq!(detector.detect("src/./lib.py/./"), Some(Language::Python));
    assert_eq!(detector.detect("a.rs/.."), None);
    assert_eq!(detector.detect("."), None);
}
