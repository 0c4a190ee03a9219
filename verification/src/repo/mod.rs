//! Repository intelligence: languages, frameworks, tooling metadata, entry
//! points, modules and import relationships.

pub mod language;
pub mod models;
pub mod metadata_detector;
pub mod language_detector;
pub mod scan;
pub mod module_detector;
pub mod entrypoint_detector;
pub mod framework_detector;
pub mod import_extractor;
pub mod analysis;
