//! Context optimisation: eligibility gate, token estimation, budget pruning,
//! relevance scoring, near-duplicate detection and candidate ranking.

pub mod gate;
pub mod models;
pub mod tokens;
pub mod pruner;
pub mod selector;
pub mod optimizer;
pub mod dedup;
pub mod dedup_laws;
pub mod engine;
pub mod plan_laws;
