//! Engine for keeping a local "context folder" in step with a declarative
//! configuration: glob-style keep/delete rules decide which paths under a
//! destination survive, a keep set is aggregated across sources, and a
//! reconciliation plan prunes everything else, emptied directories included.
//!
//! Paths are modelled as sequences of `/`-separated segments relative to the
//! context root, so the whole decision logic is pure; the thin I/O shell that
//! walks and mutates a real filesystem lives outside this crate.

pub mod classify;
pub mod combine;
pub mod config;
pub mod keepset;
pub mod materialize;
pub mod paths;
pub mod pattern;
pub mod reconcile;
