//! Caching and enrichment layer over a version-history store.
//!
//! The library holds a time-ordered snapshot of every revision reachable from
//! the head, lazily built per-path indices over it, a paginated and filtered
//! query engine, the assembly of structured diffs, and the attribution of
//! changed files to their most active authors. Reading the store itself is
//! left to the caller, who hands the library plain values.

pub mod attribution;
pub mod blame;
pub mod cache;
pub mod diff;
pub mod error;
pub mod history;
pub mod models;
pub mod ordering;
pub mod relative_time;
pub mod repository;
pub mod session;
pub mod tally;
pub mod text;
pub mod tree;
