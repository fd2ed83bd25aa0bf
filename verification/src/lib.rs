//! Command execution layer of a replicated key-value node.
//!
//! The consensus protocol delivers an ordered log of committed writes; this
//! crate decides what a request is, when a read may be answered under the
//! consistency tier it asked for, and how committed writes reach the table
//! exactly once.

pub mod command;
pub mod coordinator;
pub mod laws;
pub mod response;
pub mod storage;
