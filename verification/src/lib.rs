//! Unified diffs with selectable hunks, and the decisions of the pipeline
//! that computes them for many files at once.

pub mod abort;
pub mod aligner;
pub mod exit;
pub mod laws;
pub mod patch;
pub mod render;
pub mod script;
pub mod text;
pub mod types;
pub mod udiff;
pub mod worker;
