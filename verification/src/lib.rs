//! A static-analysis engine for Solidity source trees.
//!
//! The engine walks compiler-produced syntax trees with a set of pluggable
//! detection rules, maps raw byte offsets back to line/column positions and
//! excerpts, and aggregates located findings across many compiled units.
//!
//! - [`ast`] holds the node model the engine traverses;
//! - [`rules`] the rule registry, catalogs and per-node hooks;
//! - [`walker`] the dispatch pass and the run orchestrator;
//! - [`solidity`] the byte-offset to line/column source index;
//! - [`findings`] the finding data model and the run-wide result map;
//! - [`version`] compiler-version handling for pragma analysis;
//! - [`cmd`], [`compiler`], [`utils`], [`strutil`] the remaining
//!   command-surface decisions, source selection and leaf utilities.

pub mod ast;
pub mod cmd;
pub mod compiler;
pub mod findings;
pub mod rules;
pub mod solidity;
pub mod strutil;
pub mod utils;
pub mod version;
pub mod walker;
