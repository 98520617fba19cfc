//! Validator-side core of a Byzantine-fault-tolerant object ledger.
//!
//! The crate covers three subsystems: quorum aggregation (a fan-out /
//! reduce primitive over a weighted committee), a transaction execution
//! engine that applies certified transactions against a versioned object
//! store with gas accounting and rollback, and checkpoint reconciliation
//! that merges per-authority transaction histories into one agreed set.

pub mod base;
pub mod vecmap;
pub mod committee;
pub mod objects;
pub mod messages;
pub mod temporary_store;
pub mod execution_engine;
pub mod checkpoint;
pub mod waypoint;
pub mod broadcast;
pub mod limits;
pub mod authority;
pub mod executor;
pub mod test_utils;
pub mod authority_aggregator;
