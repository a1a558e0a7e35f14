//! Classifies the resolved dependencies of a package manifest by provenance
//! (registry package, local path, or remote version-controlled source),
//! accumulates them without duplicates in first-seen order, and renders a
//! build-recipe fragment with pinned fetch instructions for every dependency.

pub mod accumulate;
pub mod classify;
pub mod emit;
pub mod text;
