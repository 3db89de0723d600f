//! Scaffolds a directory tree for recurring production projects from a
//! parent-linked list of folder templates, and reconciles a previously
//! materialized project root with a newly requested configuration.
//!
//! The crate computes everything as plain values: which directory names a
//! placeholder expands to, which paths the template tree denotes, what to
//! do with the project root, and which directories are still missing.
//! Performing the filesystem side effects is left to the caller.

pub mod materialize;
pub mod paths;
pub mod reconcile;
pub mod resolver;
pub mod types;
