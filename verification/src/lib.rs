//! Repository analysis, dependency-graph analysis and context optimisation,
//! verified with Verus.

pub mod order;
pub mod paths;
pub mod normal_form;
pub mod text;
pub mod repo;
pub mod context;
pub mod graph;
pub mod json;
pub mod pattern;
