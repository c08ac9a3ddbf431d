//! Helpers for writing and checking git commit messages: a style verifier,
//! a staged-diff analyzer, and a commit message generator.

pub mod analyzer;
pub mod casing;
pub mod generator;
pub mod policy;
pub mod style;
pub mod text;
pub mod wrap;
