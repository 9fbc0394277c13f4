//! Quorum replication: which nodes hold a partition, how far each has come,
//! and when a write counts as committed.

pub mod copyset;
pub mod quorum;
pub mod replicator;
pub mod sync;
