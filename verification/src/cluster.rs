//! The cluster manager: which logs exist and which nodes hold which
//! partition.

use vstd::prelude::*;
use std::collections::HashMap;
use crate::base::error::PyralogError;
use crate::base::log::{LogId, LogMetadata};
use crate::base::partition::PartitionId;
use crate::consensus::raft::{RaftConfig, RaftNode};

verus! {

/// Whether `m` is the metadata of the log with this namespace and name.
pub open spec fn is_log(m: LogMetadata, namespace: Seq<char>, name: Seq<char>) -> bool {
    m.id.namespace@ == namespace && m.id.name@ == name
}

/// The place of the first metadata of the log at or after `from`, or the
/// length of the list.
pub open spec fn log_position(
    logs: Seq<LogMetadata>,
    namespace: Seq<char>,
    name: Seq<char>,
    from: int,
) -> int
    decreases logs.len() - from,
{
    if from < 0 || from >= logs.len() {
        logs.len() as int
    } else if is_log(logs[from], namespace, name) {
        from
    } else {
        log_position(logs, namespace, name, from + 1)
    }
}

/// Two pieces of metadata say the same.
pub open spec fn same_metadata(a: LogMetadata, b: LogMetadata) -> bool {
    &&& a.id.namespace@ == b.id.namespace@
    &&& a.id.name@ == b.id.name@
    &&& a.partition_count == b.partition_count
    &&& a.replication_factor == b.replication_factor
    &&& a.retention_policy == b.retention_policy
    &&& a.config == b.config
}

/// Where the search for a log ends: at its first metadata, or at the end.
pub proof fn lemma_log_position(
    logs: Seq<LogMetadata>,
    namespace: Seq<char>,
    name: Seq<char>,
    from: int,
)
    requires
        0 <= from <= logs.len(),
    ensures
        from <= log_position(logs, namespace, name, from) <= logs.len(),
        log_position(logs, namespace, name, from) < logs.len() ==> is_log(
            logs[log_position(logs, namespace, name, from)],
            namespace,
            name,
        ),
        forall|j: int|
            from <= j < log_position(logs, namespace, name, from) ==> !is_log(
                #[trigger] logs[j],
                namespace,
                name,
            ),
    decreases logs.len() - from,
{
    if from < logs.len() && !is_log(logs[from], namespace, name) {
        lemma_log_position(logs, namespace, name, from + 1);
    }
}

/// The metadata of a cluster, as one node sees it.
pub struct ClusterManager {
    node_id: u64,
    raft: RaftNode,
    logs: Vec<LogMetadata>,
    partition_assignments: HashMap<u32, Vec<u64>>,
}

impl ClusterManager {
    /// This node.
    pub closed spec fn spec_node(&self) -> u64 {
        self.node_id
    }

    /// The Raft node that orders the cluster's metadata.
    pub closed spec fn spec_raft(&self) -> RaftNode {
        self.raft
    }

    /// The logs that are registered, in the order of their registration.
    pub closed spec fn spec_logs(&self) -> Seq<LogMetadata> {
        self.logs@
    }

    /// The nodes that hold each partition, the leader first.
    pub closed spec fn spec_assignments(&self) -> Map<u32, Vec<u64>> {
        self.partition_assignments@
    }

    /// The Raft node is sound.
    pub closed spec fn wf(&self) -> bool {
        self.raft.wf()
    }

    /// Whether this node leads `partition`: it comes first among the nodes
    /// that hold the partition.
    pub open spec fn spec_leads(&self, partition: u32) -> bool {
        self.spec_assignments().contains_key(partition) && self.spec_assignments()[partition]@.len()
            > 0 && self.spec_assignments()[partition]@[0] == self.spec_node()
    }

    /// The node that leads `partition`: the first of the nodes that hold
    /// it, if the partition is assigned to any.
    pub open spec fn spec_leader(&self, partition: u32) -> Option<u64> {
        if self.spec_assignments().contains_key(partition) && self.spec_assignments()[partition]@.len()
            > 0 {
            Some(self.spec_assignments()[partition]@[0])
        } else {
            None
        }
    }

    /// A manager without logs or assignments, whose Raft node is in the
    /// state that its state file holds. It is refused exactly where the
    /// Raft node is: for a state file that does not decode or holds a log
    /// out of order.
    pub fn new(config: RaftConfig, raft_image: Vec<u8>) -> (r: Result<Self, PyralogError>)
        ensures
            r is Ok <==> RaftNode::loadable(raft_image@),
            match r {
                Ok(m) => {
                    &&& m.wf()
                    &&& m.spec_node() == config.node_id
                    &&& m.spec_logs().len() == 0
                    &&& m.spec_assignments() == Map::<u32, Vec<u64>>::empty()
                    &&& m.spec_raft().starts_from(config.node_id, config.cluster_nodes@, raft_image@)
                },
                Err(e) => RaftNode::load_error(raft_image@, e),
            },
    {
        let node_id: u64 = config.node_id;
        match RaftNode::new(config, raft_image) {
            Ok(raft) => Ok(
                Self { node_id, raft, logs: Vec::new(), partition_assignments: HashMap::new() },
            ),
            Err(e) => Err(e),
        }
    }

    /// The place of the metadata of `log_id`.
    fn find(&self, log_id: &LogId) -> (i: usize)
        ensures
            i == log_position(self.logs@, log_id.namespace@, log_id.name@, 0),
            i <= self.logs@.len(),
    {
        let n: usize = self.logs.len();
        let mut i: usize = 0;
        while i < n
            invariant
                i <= n,
                n == self.logs@.len(),
                log_position(self.logs@, log_id.namespace@, log_id.name@, i as int) == log_position(
                    self.logs@,
                    log_id.namespace@,
                    log_id.name@,
                    0,
                ),
            decreases n - i,
        {
            if self.logs[i].id.same_as(log_id) {
                return i;
            }
            i += 1;
        }
        i
    }

    /// Registers a log. The metadata of a log that is registered already
    /// is replaced.
    pub fn create_log(&mut self, metadata: LogMetadata)
        ensures
            final(self).wf() == old(self).wf(),
            final(self).spec_node() == old(self).spec_node(),
            final(self).spec_raft() == old(self).spec_raft(),
            final(self).spec_assignments() == old(self).spec_assignments(),
            ({
                let at = log_position(
                    old(self).spec_logs(),
                    metadata.id.namespace@,
                    metadata.id.name@,
                    0,
                );
                final(self).spec_logs() == if at < old(self).spec_logs().len() {
                    old(self).spec_logs().update(at, metadata)
                } else {
                    old(self).spec_logs().push(metadata)
                }
            }),
    {
        let i: usize = self.find(&metadata.id);
        if i < self.logs.len() {
            self.logs.set(i, metadata);
        } else {
            self.logs.push(metadata);
        }
    }

    /// Removes a log from the register, and says whether it was there.
    pub fn delete_log(&mut self, log_id: &LogId) -> (r: bool)
        ensures
            final(self).wf() == old(self).wf(),
            final(self).spec_node() == old(self).spec_node(),
            final(self).spec_raft() == old(self).spec_raft(),
            final(self).spec_assignments() == old(self).spec_assignments(),
            ({
                let at = log_position(old(self).spec_logs(), log_id.namespace@, log_id.name@, 0);
                &&& r == (at < old(self).spec_logs().len())
                &&& final(self).spec_logs() == if r {
                    old(self).spec_logs().remove(at)
                } else {
                    old(self).spec_logs()
                }
            }),
    {
        let i: usize = self.find(log_id);
        if i < self.logs.len() {
            self.logs.remove(i);
            true
        } else {
            false
        }
    }

    /// The metadata of a log, if the log is registered.
    pub fn get_log(&self, log_id: &LogId) -> (r: Option<LogMetadata>)
        ensures
            ({
                let at = log_position(self.spec_logs(), log_id.namespace@, log_id.name@, 0);
                match r {
                    Some(m) => at < self.spec_logs().len() && same_metadata(m, self.spec_logs()[at]),
                    None => at >= self.spec_logs().len(),
                }
            }),
    {
        let i: usize = self.find(log_id);
        if i < self.logs.len() {
            Some(self.logs[i].duplicate())
        } else {
            None
        }
    }

    /// Notes which nodes hold `partition`; the first of them leads it.
    pub fn assign_partition(&mut self, partition: PartitionId, nodes: Vec<u64>)
        ensures
            final(self).wf() == old(self).wf(),
            final(self).spec_node() == old(self).spec_node(),
            final(self).spec_raft() == old(self).spec_raft(),
            final(self).spec_logs() == old(self).spec_logs(),
            final(self).spec_assignments() == old(self).spec_assignments().insert(
                partition.0,
                nodes,
            ),
    {
        self.partition_assignments.insert(partition.0, nodes);
    }

    /// The nodes that hold `partition`, if the partition is assigned.
    pub fn get_partition_nodes(&self, partition: PartitionId) -> (r: Option<Vec<u64>>)
        ensures
            match r {
                Some(nodes) => self.spec_assignments().contains_key(partition.0) && nodes@
                    == self.spec_assignments()[partition.0]@,
                None => !self.spec_assignments().contains_key(partition.0),
            },
    {
        match self.partition_assignments.get(&partition.0) {
            Some(nodes) => Some(nodes.clone()),
            None => None,
        }
    }

    /// Whether this node leads `partition`.
    pub fn is_partition_leader(&self, partition: PartitionId) -> (r: bool)
        ensures
            r == self.spec_leads(partition.0),
    {
        match self.partition_assignments.get(&partition.0) {
            Some(nodes) => nodes.len() > 0 && nodes[0] == self.node_id,
            None => false,
        }
    }

    /// The node that leads `partition`, if the partition has a leader.
    pub fn partition_leader(&self, partition: PartitionId) -> (r: Option<u64>)
        ensures
            r == self.spec_leader(partition.0),
    {
        match self.partition_assignments.get(&partition.0) {
            Some(nodes) => if nodes.len() > 0 {
                Some(nodes[0])
            } else {
                None
            },
            None => None,
        }
    }

    /// The names of all registered logs, in the order of their
    /// registration.
    pub fn list_logs(&self) -> (r: Vec<LogId>)
        ensures
            r@.len() == self.spec_logs().len(),
            forall|i: int|
                0 <= i < r@.len() ==> (#[trigger] r@[i]).namespace@
                    == self.spec_logs()[i].id.namespace@ && r@[i].name@
                    == self.spec_logs()[i].id.name@,
    {
        let mut out: Vec<LogId> = Vec::new();
        let n: usize = self.logs.len();
        let mut i: usize = 0;
        while i < n
            invariant
                i <= n,
                n == self.logs@.len(),
                out@.len() == i,
                forall|j: int|
                    0 <= j < i ==> (#[trigger] out@[j]).namespace@ == self.logs@[j].id.namespace@
                        && out@[j].name@ == self.logs@[j].id.name@,
            decreases n - i,
        {
            out.push(self.logs[i].id.duplicate());
            i += 1;
        }
        out
    }

    /// This node.
    pub fn node_id(&self) -> (r: u64)
        ensures
            r == self.spec_node(),
    {
        self.node_id
    }

    /// The Raft node, for driving it: what is done to it through the
    /// reference is done to the manager's Raft node.
    pub fn raft_mut(&mut self) -> (r: &mut RaftNode)
        ensures
            *r == old(self).spec_raft(),
            final(self).spec_raft() == *final(r),
            final(self).spec_node() == old(self).spec_node(),
            final(self).spec_logs() == old(self).spec_logs(),
            final(self).spec_assignments() == old(self).spec_assignments(),
            final(self).wf() == final(r).wf(),
    {
        &mut self.raft
    }

    /// The Raft node.
    pub fn raft(&self) -> (r: &RaftNode)
        ensures
            *r == self.spec_raft(),
    {
        &self.raft
    }
}

} // verus!
