//! Replicated control-plane core for a content-extraction platform.
//!
//! The crate holds the deterministic heart of the system: a replicated
//! state machine over cluster configuration and the work graph (executors,
//! content, extractor bindings, extraction events, tasks, assignments), a
//! log-and-vote store that the replication engine drives, and the pure
//! decision logic of the coordinator that turns committed events into
//! tasks and task assignments.
//!
//! Everything that touches the outside world (clocks, randomness, the
//! replication engine's RPCs) is either passed in as a plain value or
//! stands behind a small trusted wrapper; the logic itself is verified.

pub mod coordinator;
pub mod entities;
pub mod invariants;
pub mod requests;
pub mod state_machine;
pub mod store;
pub mod strset;
pub mod table;
