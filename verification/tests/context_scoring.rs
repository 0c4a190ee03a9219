use std::collections::BTreeMap;

use ink_analysis::context::dedup::{detect_near_duplicates, DedupConfig, DuplicateGroup};
use ink_analysis::context::selector::{score, FileSignals, QueryTokens};

fn entry(path: &str, content: &str) -> (String, String) {
    (path.to_owned(), content.to_owned())
}

fn group_by_representative(groups: &[DuplicateGroup]) -> BTreeMap<&str, Vec<&str>> {
    groups
        .iter()
        .map(|group| {
            (
                group.representative.as_str(),
                group
                    .members
                    .iter()
                    .map(|member| member.path.as_str())
                    .collect::<Vec<_>>(),
            )
        })
        .collect()
}

fn similarity(shared: usize, union: usize) -> f64 {
    shared as f64 / union as f64
}

#[test]
fn identical_files_are_collapsed() {
    let source = "fn main() {\n    let value = 42;\n    println!(\"{value}\");\n}\n";
    let entries = vec![
        entry("src/main.rs", source),
        entry("src/copy.rs", source),
        entry("src/other.rs", "pub struct Other;"),
    ];
    let groups = detect_near_duplicates(&entries, &DedupConfig::default());
    let by_rep = group_by_representative(&groups);
    assert!(by_rep
        .get("src/main.rs")
        .is_some_and(|members| members.contains(&"src/copy.rs")));
    assert_eq!(groups.len(), 1);
}

#[test]
fn representative_follows_priority_order() {
    let source = "const value = 1;\nexport { value };\n";
    let entries = vec![
        entry("src/a.rs", source),
        entry("src/b.rs", source),
        entry("src/c.rs", source),
    ];
    let groups = detect_near_duplicates(&entries, &DedupConfig::default());
    assert_eq!(groups.len(), 1);
    assert_eq!(groups[0].representative, "src/a.rs");
    assert_eq!(groups[0].members.len(), 2);
}

#[test]
fn distinct_files_are_not_grouped() {
    let entries = vec![
        entry("src/a.rs", "fn alpha() { let x = 1; }"),
        entry("src/b.rs", "fn beta() { let y = 2; }"),
        entry("src/c.rs", "struct Gamma { field: u8 }"),
    ];
    let groups = detect_near_duplicates(&entries, &DedupConfig::default());
    assert!(groups.is_empty());
}

#[test]
fn short_or_empty_content_yields_no_group() {
    let entries = vec![entry("a.rs", "x"), entry("b.rs", "x")];
    let groups = detect_near_duplicates(&entries, &DedupConfig::default());
    assert!(groups.is_empty());
}

#[test]
fn whitespace_only_differences_are_collapsed() {
    let base = "pub struct Config {\n  pub host: String,\n  pub port: u16,\n}\n";
    let reindented = "pub struct Config {\n\tpub host: String,\n\tpub port: u16,\n}\n\n";
    let entries = vec![
        entry("src/config.rs", base),
        entry("src/config_copy.rs", reindented),
    ];
    let groups = detect_near_duplicates(&entries, &DedupConfig::default());
    assert_eq!(groups.len(), 1);
    assert_eq!(groups[0].representative, "src/config.rs");
    let member = &groups[0].members[0];
    assert!(similarity(member.shared, member.union) > 0.95);
}

#[test]
fn substantive_additions_below_threshold_are_not_grouped() {
    let base = "pub struct Config {\n  pub host: String,\n  pub port: u16,\n}\n";
    let extended =
        "pub struct Config {\n  pub host: String,\n  pub port: u16,\n  pub tls: bool,\n}\n";
    let entries = vec![
        entry("src/config.rs", base),
        entry("src/config2.rs", extended),
    ];
    let groups = detect_near_duplicates(&entries, &DedupConfig::default());
    // About 0.53 similarity, below the default 0.8 threshold.
    assert!(groups.is_empty());
}

#[test]
fn hashing_is_deterministic() {
    let entries = vec![
        entry("a.rs", "fn f() { let a = 1; }"),
        entry("b.rs", "fn f() { let a = 1; }"),
    ];
    let first = detect_near_duplicates(&entries, &DedupConfig::default());
    let second = detect_near_duplicates(&entries, &DedupConfig::default());
    assert_eq!(first, second);
}

#[test]
fn dedup_threshold_can_group_looser_matches() {
    let base = "pub struct Config {\n  pub host: String,\n  pub port: u16,\n}\n";
    let extended =
        "pub struct Config {\n  pub host: String,\n  pub port: u16,\n  pub tls: bool,\n}\n";
    let entries = vec![
        entry("src/config.rs", base),
        entry("src/config2.rs", extended),
    ];
    let config = DedupConfig {
        similarity_threshold_millionths: 400_000,
        signature_count: 64,
        band_size: 1,
        ..DedupConfig::default()
    };
    let groups = detect_near_duplicates(&entries, &config);
    assert_eq!(groups.len(), 1);
    let member = &groups[0].members[0];
    assert_eq!(member.path, "src/config2.rs");
    assert!(member.shared * 1_000_000 >= 400_000 * member.union);
}

fn signals(path: &str) -> FileSignals<'_> {
    FileSignals {
        path,
        language: None,
        module: None,
        is_entrypoint: false,
        is_central: false,
        is_reachable: false,
    }
}

#[test]
fn camel_case_filename_matches_query_exactly() {
    let query = QueryTokens::new("dashboard");
    let (score, reasons) = score(&signals("src/providers/DashboardProvider.ts"), &query, false);
    // Scores are in half points.
    assert!(score >= 6);
    assert!(reasons
        .iter()
        .any(|r| r.contains("path token match: `dashboard`")));
}

#[test]
fn path_match_outranks_others() {
    let query = QueryTokens::new("auth");
    let (auth, _) = score(&signals("src/auth.rs"), &query, true);
    let (db, _) = score(&signals("src/db.rs"), &query, true);
    assert!(auth > db);
}

#[test]
fn structural_boost_lifts_entry_points() {
    let query = QueryTokens::new("");
    let mut plain = signals("src/main.rs");
    let (base, _) = score(&plain, &query, true);
    plain.is_entrypoint = true;
    let (entry, _) = score(&plain, &query, true);
    assert!(entry > base);
    assert_eq!(entry - base, 4);
}

#[test]
fn language_and_module_matches_score() {
    let query = QueryTokens::new("rust models");
    let (score, reasons) = score(
        &FileSignals {
            path: "src/models/user.rs",
            language: Some("rust"),
            module: Some("models"),
            is_entrypoint: false,
            is_central: false,
            is_reachable: false,
        },
        &query,
        true,
    );
    assert!(score >= 7);
    assert!(reasons.iter().any(|r| r.contains("language match")));
    assert!(reasons.iter().any(|r| r.contains("module match")));
}

#[test]
fn no_structural_boost_when_disabled() {
    let query = QueryTokens::new("");
    let signals = FileSignals {
        path: "src/main.rs",
        language: None,
        module: None,
        is_entrypoint: true,
        is_central: true,
        is_reachable: true,
    };
    let (score, reasons) = score(&signals, &query, false);
    assert_eq!(score, 0);
    assert!(reasons.is_empty());
}

#[test]
fn duplicate_detection_is_repeatable() {
    let source = "const value = 1;\nexport { value };\nexport default value;\n";
    let entries = vec![
        entry("src/z.ts", source),
        entry("src/b.ts", source),
        entry("src/m.ts", "pub struct Other;"),
        entry("src/a.ts", source),
    ];
    let first = detect_near_duplicates(&entries, &DedupConfig::default());
    let second = detect_near_duplicates(&entries, &DedupConfig::default());
    assert_eq!(first, second);
    assert_eq!(first.len(), 1);
    assert_eq!(first[0].representative, "src/z.ts");
    let paths: Vec<&str> = first[0].members.iter().map(|m| m.path.as_str()).collect();
    assert_eq!(paths, vec!["src/a.ts", "src/b.ts"]);
}

#[test]
fn groups_never_share_an_entry() {
    let first = "const value = 1;\nexport { value };\nexport default value;\n";
    let second = "fn main() {\n    let total = compute(3, 4);\n    println!(\"{total}\");\n}\n";
    let entries = vec![
        entry("src/a.ts", first),
        entry("src/main.rs", second),
        entry("src/b.ts", first),
        entry("src/copy.rs", second),
    ];
    let groups = detect_near_duplicates(&entries, &DedupConfig::default());
    assert_eq!(groups.len(), 2);
    assert_ne!(groups[0].representative, groups[1].representative);
    let mut seen: Vec<&str> = Vec::new();
    for g in &groups {
        seen.push(g.representative.as_str());
        for m in &g.members {
            seen.push(m.path.as_str());
        }
    }
    let mut unique = seen.clone();
    unique.sort();
    unique.dedup();
    assert_eq!(unique.len(), seen.len());
}

#[test]
fn repeated_paths_keep_their_order() {
    let source = "const value = 1;\nexport { value };\nexport default value;\n";
    let entries = vec![
        entry("src/a.ts", source),
        entry("src/same.ts", source),
        entry("src/same.ts", source),
    ];
    let first = detect_near_duplicates(&entries, &DedupConfig::default());
    let second = detect_near_duplicates(&entries, &DedupConfig::default());
    assert_eq!(first, second);
    assert_eq!(first.len(), 1);
    let members = &first[0].members;
    assert_eq!(members.len(), 2);
    assert_eq!(members[0].path, "src/same.ts");
    assert_eq!(members[1].path, "src/same.ts");
}
