//! Dependency graphs over repository files and modules: construction,
//! cycles, reachability, degree and depth metrics.

pub mod models;
pub mod pet;
pub mod construct;
pub mod files;
pub mod modules;
pub mod analysis;
pub mod components;
pub mod depth;
pub mod builder;
pub mod metrics;
