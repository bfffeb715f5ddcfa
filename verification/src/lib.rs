//! Verified core of a client that aggregates organization, repository and
//! issue data fetched from a remote code-hosting service.
//!
//! The modules here hold the data model and every decision and derivation the
//! commands make: resolving which organizations to query, folding fetch
//! results into summaries while tolerating per-organization failures, and the
//! sorting, filtering and ranking rules of each command. Network transport,
//! terminal rendering and the configuration file live outside this crate.

pub mod commands;
pub mod config;
pub mod error;
pub mod github;
pub mod ordering;
pub mod seq_util;
pub mod text;
pub mod timestamp;
