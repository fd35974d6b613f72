//! Rule-verification and sub-rewrite computation engine for a structural
//! code-search tool.
//!
//! The library runs declared test cases against pattern-matching rules,
//! classifies each code sample's outcome against optional golden snapshots,
//! plans the deterministic parallel partitioning of the case list, merges
//! accepted snapshot updates, and computes derived replacement text by
//! splicing sub-rule edits back into captured source bytes.
//!
//! Tree matching itself is an external capability: callers run the matcher
//! and hand its per-sample outcomes and produced edits to this library as
//! plain values.

pub mod case;
pub mod edit;
pub mod reconcile;
pub mod report;
pub mod rewrite;
pub mod runner;
pub mod snapshot;
pub mod text;
pub mod transform;
