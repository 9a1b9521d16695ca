//! Revision-synchronization core for a database view: an ordered, per-object
//! revision log with lifecycle states, a deterministic operation codec and
//! merger, and the in-memory configuration pad that the filter, sort and
//! group consumers read through narrow delegates.

pub mod errors;
pub mod seq_util;
pub mod checksum;
pub mod revision;
pub mod store;
pub mod pad;
pub mod ops;
pub mod view_pad;
pub mod merge;
pub mod fetch;
pub mod manager;
pub mod delegates;
