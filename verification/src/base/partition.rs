//! Partitions: the independent streams a log is split into.

use vstd::prelude::*;
use vstd::std_specs::convert::FromSpecImpl;
use crate::storage::names::{decimal_digits, decimal_text};
use crate::base::log::LogId;
use crate::base::offset::LogOffset;

verus! {

/// The number of a partition within its log.
#[derive(Debug, Clone, Copy, PartialEq, Eq, Structural, Hash, PartialOrd, Ord)]
pub struct PartitionId(pub u32);

impl PartitionId {
    pub fn new(id: u32) -> (r: Self)
        ensures
            r.0 == id,
    {
        PartitionId(id)
    }

    pub fn as_u32(&self) -> (r: u32)
        ensures
            r == self.0,
    {
        self.0
    }
}

impl PartitionId {
    /// The number in decimal.
    pub fn to_text(&self) -> (r: String)
        ensures
            r@ == decimal_digits(self.0 as nat),
    {
        decimal_text(self.0 as u64)
    }
}

impl From<u32> for PartitionId {
    fn from(id: u32) -> (r: PartitionId) {
        PartitionId(id)
    }
}

impl FromSpecImpl<u32> for PartitionId {
    open spec fn obeys_from_spec() -> bool {
        true
    }

    open spec fn from_spec(id: u32) -> PartitionId {
        PartitionId(id)
    }
}

/// One partition of a log and the nodes that hold it.
#[derive(Debug, Clone)]
pub struct Partition {
    pub log_id: LogId,
    pub partition_id: PartitionId,
    /// The node that leads the partition, if one is known.
    pub leader_node: Option<u64>,
    /// The nodes that hold a replica.
    pub replica_nodes: Vec<u64>,
    /// The earliest offset still available.
    pub low_watermark: LogOffset,
    /// The first offset not yet committed.
    pub high_watermark: LogOffset,
}

impl Partition {
    /// A partition without leader or replicas, empty.
    pub fn new(log_id: LogId, partition_id: PartitionId) -> (r: Self)
        ensures
            r.log_id == log_id,
            r.partition_id == partition_id,
            r.leader_node is None,
            r.replica_nodes@.len() == 0,
            r.low_watermark.0 == 0,
            r.high_watermark.0 == 0,
    {
        Self {
            log_id,
            partition_id,
            leader_node: None,
            replica_nodes: Vec::new(),
            low_watermark: LogOffset::zero(),
            high_watermark: LogOffset::zero(),
        }
    }

    /// Whether `node_id` leads the partition.
    pub fn is_leader(&self, node_id: u64) -> (r: bool)
        ensures
            r == (self.leader_node == Some(node_id)),
    {
        match self.leader_node {
            Some(l) => l == node_id,
            None => false,
        }
    }

    /// Whether `node_id` holds a replica of the partition.
    pub fn is_replica(&self, node_id: u64) -> (r: bool)
        ensures
            r == self.replica_nodes@.contains(node_id),
    {
        contains_node(&self.replica_nodes, node_id)
    }
}

/// Whether `node_id` occurs in `nodes`.
pub fn contains_node(nodes: &Vec<u64>, node_id: u64) -> (r: bool)
    ensures
        r == nodes@.contains(node_id),
{
    let n: usize = nodes.len();
    let mut i: usize = 0;
    while i < n
        invariant
            i <= n,
            n == nodes@.len(),
            forall|j: int| 0 <= j < i ==> nodes@[j] != node_id,
        decreases n - i,
    {
        if nodes[i] == node_id {
            return true;
        }
        i += 1;
    }
    false
}

} // verus!
