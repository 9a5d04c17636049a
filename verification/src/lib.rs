//! A disk-cleanup library: a failure-tolerant directory-size scanner,
//! retention heuristics that synthesize deletion candidates, an interactive
//! selection engine with live aggregate statistics, a render-ready view-model
//! projection, and a deletion tally with not-found-is-success semantics.
//!
//! All filesystem and terminal work lives outside this crate; the library
//! takes the observed facts (directory listings, file sizes, timestamps,
//! key presses) as plain values and makes every decision under a contract.

pub mod catalog;
pub mod cleanup;
pub mod entry;
pub mod prepare;
pub mod scan;
pub mod stale;
pub mod strutil;
pub mod ui;
pub mod versions;
pub mod view;
