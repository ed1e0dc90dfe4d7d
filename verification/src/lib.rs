//! Core of a local application finder: it scans directories for launchable
//! files, keeps a deduplicated and sorted index of them, ranks index entries
//! against a typed query, remembers the most recently launched targets, and
//! decides how a chosen target must be dispatched to the operating system.

use vstd::prelude::*;

pub mod config;
pub mod index;
pub mod launch;
pub mod pathname;
pub mod rank;
pub mod recent;
pub mod record;
pub mod scanner;
pub mod score;
pub mod searcher;
pub mod snapshot;
pub mod text;

verus! {

/// Relevance weight added when the lowercased display name equals the query.
pub const WEIGHT_EXACT: u32 = 100;

/// Relevance weight added when the lowercased display name starts with the query.
pub const WEIGHT_PREFIX: u32 = 50;

/// Relevance weight added when the lowercased display name contains the query.
pub const WEIGHT_CONTAINS: u32 = 25;

/// Relevance weight added when the lowercased path contains the query.
pub const WEIGHT_PATH: u32 = 10;

/// Numerator of the shortness bonus `20 / (name length + 1)` granted to any
/// candidate that matched at least one clause.
pub const WEIGHT_SHORTNESS: u32 = 20;

} // verus!
