//! Verified core of a configuration synchronizer for MCP server entries.
//!
//! The crate models one canonical server record, adapters between that model
//! and three incompatible JSON layouts, a format auto-detector, a merge and
//! conflict-classification engine, a crash-safe write planner with rotating
//! backups, a path-safety classifier, and an SSH target parser.  All logic is
//! pure: file and process I/O stay with the caller, which hands the library
//! plain values and executes the plans it returns.

pub mod adapters;
pub mod backup;
pub mod catalog;
pub mod config;
pub mod detect;
pub mod json;
pub mod jsonpath;
pub mod jsontext;
pub mod laws;
pub mod merge;
pub mod path_safety;
pub mod platform;
pub mod ssh;
pub mod sync;
pub mod text;
pub mod types;
pub mod versions;
