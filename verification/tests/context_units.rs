use ink_analysis::context::gate::{classify, is_eligible, ContentClass};
use ink_analysis::context::models::DroppedReason;
use ink_analysis::context::pruner::{PruneCandidate, PruneOutcome, Pruner};
use ink_analysis::context::selector::tokenize;
use ink_analysis::context::tokens::{estimate_tokens, estimate_tokens_from_bytes};

#[test]
fn source_files_are_eligible() {
    assert_eq!(classify("src/main.rs"), ContentClass::Source);
    assert_eq!(classify("src/app.tsx"), ContentClass::Source);
    assert_eq!(classify("README.md"), ContentClass::Source);
    assert_eq!(classify(".gitignore"), ContentClass::Source);
    assert_eq!(classify("src/data.json"), ContentClass::Source);
    assert!(is_eligible("src/main.rs"));
}

#[test]
fn binary_and_media_are_non_text() {
    assert_eq!(classify("assets/logo.png"), ContentClass::NonText);
    assert_eq!(classify("public/favicon.ico"), ContentClass::NonText);
    assert_eq!(classify("docs/spec.pdf"), ContentClass::NonText);
    assert_eq!(classify("dist/app.wasm"), ContentClass::NonText);
    assert!(!is_eligible("assets/logo.png"));
}

#[test]
fn generated_lockfiles_are_excluded() {
    assert_eq!(classify("package-lock.json"), ContentClass::Generated);
    assert_eq!(classify("Cargo.lock"), ContentClass::Generated);
    assert_eq!(classify("yarn.lock"), ContentClass::Generated);
    assert_eq!(classify("pnpm-lock.yaml"), ContentClass::Generated);
    assert_eq!(classify("app.min.js"), ContentClass::Generated);
    assert!(!is_eligible("package-lock.json"));
}

#[test]
fn windows_paths_are_normalized() {
    assert_eq!(classify(r"assets\logo.png"), ContentClass::NonText);
}

#[test]
fn keeps_everything_without_budget() {
    let mut pruner = Pruner::new(None, None);
    for index in 0..10 {
        assert_eq!(
            pruner.offer(&PruneCandidate {
                path: format!("f{index}"),
                tokens: 10,
            }),
            PruneOutcome::Keep
        );
    }
    assert_eq!(pruner.files_used(), 10);
}

#[test]
fn enforces_file_budget() {
    let mut pruner = Pruner::new(Some(2), None);
    assert_eq!(
        pruner.offer(&PruneCandidate {
            path: "a".into(),
            tokens: 1
        }),
        PruneOutcome::Keep
    );
    assert_eq!(
        pruner.offer(&PruneCandidate {
            path: "b".into(),
            tokens: 1
        }),
        PruneOutcome::Keep
    );
    assert!(matches!(
        pruner.offer(&PruneCandidate {
            path: "c".into(),
            tokens: 1
        }),
        PruneOutcome::Drop {
            reason: DroppedReason::BudgetExceeded,
            ..
        }
    ));
}

#[test]
fn mod_enforces_token_budget() {
    let mut pruner = Pruner::new(None, Some(10));
    assert_eq!(
        pruner.offer(&PruneCandidate {
            path: "a".into(),
            tokens: 6
        }),
        PruneOutcome::Keep
    );
    assert_eq!(
        pruner.offer(&PruneCandidate {
            path: "b".into(),
            tokens: 4
        }),
        PruneOutcome::Keep
    );
    assert!(matches!(
        pruner.offer(&PruneCandidate {
            path: "c".into(),
            tokens: 1
        }),
        PruneOutcome::Drop { .. }
    ));
    assert_eq!(pruner.tokens_used(), 10);
}

#[test]
fn tokenizes_and_filters_stopwords() {
    assert_eq!(tokenize("Fix the auth bug"), vec!["fix", "auth", "bug"]);
    assert_eq!(tokenize("auth"), vec!["auth"]);
    assert!(tokenize("the and for").is_empty());
}

#[test]
fn camel_case_is_split() {
    assert_eq!(tokenize("DashboardProvider"), vec!["dashboard", "provider"]);
    assert_eq!(tokenize("HTTPServer"), vec!["http", "server"]);
    assert_eq!(
        tokenize("fix dashboard bug"),
        vec!["fix", "dashboard", "bug"]
    );
}

#[test]
fn four_chars_per_token() {
    assert_eq!(estimate_tokens("hello"), 2);
    assert_eq!(estimate_tokens("hello world"), 3);
    assert_eq!(estimate_tokens(""), 1);
    assert_eq!(estimate_tokens_from_bytes(8), 2);
}

#[test]
fn pruner_budget_drop_details_name_the_numbers() {
    let mut pruner = Pruner::new(Some(1), Some(5));
    assert_eq!(
        pruner.offer(&PruneCandidate {
            path: "big".into(),
            tokens: 9
        }),
        PruneOutcome::Drop {
            reason: DroppedReason::BudgetExceeded,
            detail: "token budget would be exceeded (9 needed, 0 of 5 used)".to_string()
        }
    );
    assert_eq!(
        pruner.offer(&PruneCandidate {
            path: "a".into(),
            tokens: 5
        }),
        PruneOutcome::Keep
    );
    assert_eq!(
        pruner.offer(&PruneCandidate {
            path: "b".into(),
            tokens: 0
        }),
        PruneOutcome::Drop {
            reason: DroppedReason::BudgetExceeded,
            detail: "max files budget reached (1)".to_string()
        }
    );
    assert_eq!(pruner.tokens_used(), 5);
    assert_eq!(pruner.files_used(), 1);
}

#[test]
fn names_without_a_dot_are_source() {
    assert_eq!(classify("lib"), ContentClass::Source);
    assert_eq!(classify("tools/bin"), ContentClass::Source);
    assert_eq!(classify("tools/app.bin"), ContentClass::NonText);
}

#[test]
fn tokens_count_characters_and_lower_unicode() {
    assert_eq!(tokenize("Ärger é auth"), vec!["ärger", "auth"]);
    assert_eq!(tokenize("ÉCOLE"), vec!["école"]);
}

#[test]
fn file_names_and_spaced_words_give_the_same_tokens() {
    assert_eq!(tokenize("DashboardProvider.ts"), tokenize("dashboard provider"));
    assert_eq!(tokenize("DashboardProvider.ts"), vec!["dashboard", "provider"]);
    assert_eq!(tokenize("fix src/auth.rs now"), vec!["fix", "src", "auth", "now"]);
    assert_eq!(tokenize("index.test.ts"), vec!["index", "test"]);
    assert_eq!(tokenize("version 1.2 notes."), vec!["version", "notes"]);
}
