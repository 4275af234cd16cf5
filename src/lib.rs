//! Backup-chain engine for per-application backups.
//!
//! - `time`: UTC instants and their RFC 3339 text (through chrono).
//! - `text`: character-level string operations and lexicographic order.
//! - `backup`: backup records and the naming codec.
//! - `catalog`: reading a store's entries into a newest-first catalog.
//! - `config`: per-application and process-wide settings.
//! - `selector`: which files a backup takes.
//! - `plan`: the outside steps an operation asks its caller to perform.
//! - `engine`: full and incremental backups.
//! - `restore`: restore chains and the steps that apply them.
//! - `prune`: count-based retention of full backups.
//! - `listing`: backups grouped by application for display.
use vstd::prelude::*;

pub mod backup;
pub mod catalog;
pub mod config;
pub mod engine;
pub mod listing;
pub mod plan;
pub mod prune;
pub mod restore;
pub mod selector;
pub mod text;
pub mod time;

verus! {

} // verus!
