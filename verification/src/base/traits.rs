//! What the subsystems report of themselves.

use vstd::prelude::*;
use crate::base::offset::LogOffset;
use crate::base::partition::PartitionId;

verus! {

/// How far the replication of a partition has come.
#[derive(Debug, Clone)]
pub struct ReplicationStatus {
    pub partition: PartitionId,
    /// The offset of the copyset's leader.
    pub leader_offset: LogOffset,
    /// The offsets of the other nodes of the copyset that have reported.
    pub follower_offsets: Vec<(u64, LogOffset)>,
    /// The nodes that are in sync.
    pub in_sync_replicas: Vec<u64>,
}

} // verus!
