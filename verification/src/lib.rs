//! Verified core of a git-template project scaffolder.
//!
//! The library resolves short `prefix:path` repository references through a
//! service registry, models clone progress, interprets an optional embedded
//! question schema, renders text through a small `{{ value | filter }}`
//! placeholder language with case-conversion filters, and drives the
//! per-file error-recovery policy of the scaffold walk.

pub mod config;
pub mod errors;
pub mod format;
pub mod pipeline;
pub mod progress;
pub mod render;
pub mod schema;
pub mod text;
