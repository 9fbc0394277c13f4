//! The replication manager: it keeps the copyset of every partition,
//! counts the acknowledgements that come in for a batch, and notes how far
//! each node has come.
//!
//! Sending a batch and waiting for the answers is done by the embedding
//! program; it hands the acknowledgements in, and the manager decides
//! whether the write quorum is met.

use vstd::prelude::*;
use vstd::string::StringExecFns;
use std::collections::HashMap;
use crate::base::error::PyralogError;
use crate::base::offset::LogOffset;
use crate::base::partition::{contains_node, PartitionId};
use crate::base::record::RecordBatch;
use crate::base::traits::ReplicationStatus;
use crate::replication::copyset::{ascending, CopySet, CopySetSelector};
use crate::replication::quorum::{lemma_quorums_intersect, QuorumConfig};
use crate::replication::sync::{is_quorum_committed, ready_count, SyncManager};

verus! {

/// The lag, in offsets, up to which a replica counts as in sync.
pub const IN_SYNC_LAG: u64 = 1000;

/// The settings of replication.
#[derive(Debug, Clone)]
pub struct ReplicationConfig {
    pub quorum: QuorumConfig,
    /// The number of batches that may be on their way at once.
    pub max_in_flight: usize,
    /// How often a batch is sent again before replication gives up.
    pub retry_attempts: usize,
    /// The deadline of one attempt, in milliseconds.
    pub timeout_ms: u64,
}

impl ReplicationConfig {
    /// Whether two configurations say the same.
    pub open spec fn same_as(self, other: Self) -> bool {
        &&& self.quorum.same_as(other.quorum)
        &&& self.max_in_flight == other.max_in_flight
        &&& self.retry_attempts == other.retry_attempts
        &&& self.timeout_ms == other.timeout_ms
    }

    /// Whether a batch is sent again after `sent` attempts, the last of
    /// which met the write quorum or did not: a batch that has its quorum
    /// is done, and one that has not is sent once and then as often again
    /// as the settings allow.
    pub fn sends_again(&self, sent: usize, quorum_met: bool) -> (r: bool)
        ensures
            r == (!quorum_met && sent <= self.retry_attempts),
    {
        !quorum_met && sent <= self.retry_attempts
    }

    /// A second configuration that says the same.
    pub fn duplicate(&self) -> (r: Self)
        ensures
            r.same_as(*self),
    {
        Self {
            quorum: self.quorum.duplicate(),
            max_in_flight: self.max_in_flight,
            retry_attempts: self.retry_attempts,
            timeout_ms: self.timeout_ms,
        }
    }
}

impl Default for ReplicationConfig {
    /// The majority quorum of three, a thousand batches in flight, three
    /// attempts of five seconds each.
    fn default() -> (r: Self)
        ensures
            r.quorum.replication_factor == 3,
            r.quorum.write_quorum == 2,
            r.quorum.read_quorum == 2,
            r.max_in_flight == 1000,
            r.retry_attempts == 3,
            r.timeout_ms == 5000,
    {
        Self { quorum: QuorumConfig::default(), max_in_flight: 1000, retry_attempts: 3, timeout_ms: 5000 }
    }
}

/// The nodes of `nodes` among the first `upto` of `acks`: those whose
/// acknowledgement counts.
pub open spec fn acked(acks: Seq<u64>, nodes: Seq<u64>, upto: int) -> Set<u64>
    decreases upto,
{
    if upto <= 0 || upto > acks.len() {
        Set::empty()
    } else if nodes.contains(acks[upto - 1]) {
        acked(acks, nodes, upto - 1).insert(acks[upto - 1])
    } else {
        acked(acks, nodes, upto - 1)
    }
}

/// The nodes whose acknowledgement counts are finitely many, are nodes of
/// the copyset, and have acknowledged.
pub proof fn lemma_acked(acks: Seq<u64>, nodes: Seq<u64>, upto: int)
    requires
        0 <= upto <= acks.len(),
    ensures
        acked(acks, nodes, upto).finite(),
        forall|n: u64| #[trigger]
            acked(acks, nodes, upto).contains(n) ==> nodes.contains(n) && acks.contains(n),
    decreases upto,
{
    if upto > 0 {
        lemma_acked(acks, nodes, upto - 1);
    }
}

/// What a write quorum has acknowledged, every read quorum finds. Under a
/// valid quorum configuration, with a copyset of as many different nodes
/// as the replication factor says: where the nodes that acknowledged a
/// batch make a write quorum, any read quorum among the copyset's nodes
/// holds a node that acknowledged it.
pub proof fn lemma_acknowledged_batch_is_found(
    config: QuorumConfig,
    nodes: Seq<u64>,
    acks: Seq<u64>,
    readers: Set<u64>,
)
    requires
        config.verdict() is Valid,
        nodes.no_duplicates(),
        nodes.len() == config.replication_factor,
        acked(acks, nodes, acks.len() as int).len() >= config.write_quorum,
        readers.subset_of(nodes.to_set()),
        readers.len() >= config.read_quorum,
    ensures
        exists|n: u64| acked(acks, nodes, acks.len() as int).contains(n) && readers.contains(n),
{
    let writers = acked(acks, nodes, acks.len() as int);
    lemma_acked(acks, nodes, acks.len() as int);
    nodes.unique_seq_to_set();
    lemma_quorums_intersect(config, nodes.to_set(), writers, readers);
}

/// The followers among the first `upto` of `nodes` with their offsets:
/// every node but the leader that has reported, in the order of `nodes`.
pub open spec fn followers(
    offsets: Map<u64, LogOffset>,
    nodes: Seq<u64>,
    leader: u64,
    upto: int,
) -> Seq<(u64, LogOffset)>
    decreases upto,
{
    if upto <= 0 || upto > nodes.len() {
        Seq::empty()
    } else {
        let rest = followers(offsets, nodes, leader, upto - 1);
        let n = nodes[upto - 1];
        if n != leader && offsets.contains_key(n) {
            rest.push((n, offsets[n]))
        } else {
            rest
        }
    }
}

/// The replication manager of a node.
pub struct ReplicationManager {
    config: ReplicationConfig,
    sync_manager: SyncManager,
    copyset_selector: CopySetSelector,
    partition_copysets: HashMap<u32, CopySet>,
}

impl ReplicationManager {
    /// The settings.
    pub closed spec fn spec_config(&self) -> ReplicationConfig {
        self.config
    }

    /// The progress of every node.
    pub closed spec fn spec_sync(&self) -> SyncManager {
        self.sync_manager
    }

    /// The copyset of every partition that has one.
    pub closed spec fn spec_copysets(&self) -> Map<u32, CopySet> {
        self.partition_copysets@
    }

    /// The nodes of the cluster.
    pub closed spec fn spec_cluster(&self) -> Seq<u64> {
        self.copyset_selector.spec_nodes()
    }

    /// The parts are sound and fit together.
    pub closed spec fn wf(&self) -> bool {
        &&& self.sync_manager.wf()
        &&& self.copyset_selector.spec_factor() == self.config.quorum.replication_factor
    }

    /// A manager for a cluster of `cluster_nodes` that has noted nothing
    /// yet.
    pub fn new(config: ReplicationConfig, cluster_nodes: Vec<u64>) -> (r: Self)
        ensures
            r.wf(),
            r.spec_config() == config,
            r.spec_cluster() == cluster_nodes@,
            r.spec_copysets() == Map::<u32, CopySet>::empty(),
            r.spec_sync().spec_offsets() == Map::<u64, LogOffset>::empty(),
    {
        let copyset_selector = CopySetSelector::new(cluster_nodes, config.quorum.replication_factor);
        Self {
            config,
            sync_manager: SyncManager::new(),
            copyset_selector,
            partition_copysets: HashMap::new(),
        }
    }

    /// The copyset of `partition`. A partition keeps the copyset it got
    /// first; a partition without one gets one drawn, if the cluster has
    /// enough nodes.
    pub fn get_copyset(&mut self, partition: PartitionId) -> (r: Option<CopySet>)
        requires
            old(self).wf(),
        ensures
            final(self).wf(),
            final(self).spec_config() == old(self).spec_config(),
            final(self).spec_cluster() == old(self).spec_cluster(),
            final(self).spec_sync() == old(self).spec_sync(),
            old(self).spec_copysets().contains_key(partition.0) ==> {
                &&& final(self).spec_copysets() == old(self).spec_copysets()
                &&& r matches Some(cs)
                &&& cs.nodes@ == old(self).spec_copysets()[partition.0].nodes@
                &&& cs.leader == old(self).spec_copysets()[partition.0].leader
            },
            !old(self).spec_copysets().contains_key(partition.0) ==> {
                let factor = old(self).spec_config().quorum.replication_factor;
                &&& r is Some <==> old(self).spec_cluster().len() >= factor && factor >= 1
                &&& r is None ==> final(self).spec_copysets() == old(self).spec_copysets()
                &&& r matches Some(cs) ==> {
                    &&& final(self).spec_copysets().dom() == old(self).spec_copysets().dom().insert(
                        partition.0,
                    )
                    &&& forall|p: u32|
                        p != partition.0 && old(self).spec_copysets().contains_key(p) ==> final(self).spec_copysets()[p] == old(self).spec_copysets()[p]
                    &&& final(self).spec_copysets()[partition.0].nodes@ == cs.nodes@
                    &&& final(self).spec_copysets()[partition.0].leader == cs.leader
                    &&& cs.nodes@.len() == factor
                    &&& ascending(cs.nodes@)
                    &&& forall|x: u64| cs.nodes@.contains(x) ==> old(self).spec_cluster().contains(x)
                    &&& old(self).spec_cluster().no_duplicates() ==> cs.nodes@.no_duplicates()
                    &&& cs.nodes@.contains(cs.leader)
                }
            },
    {
        match self.partition_copysets.get(&partition.0) {
            Some(cs) => {
                return Some(cs.duplicate());
            },
            None => {},
        }
        let copyset: CopySet = match self.copyset_selector.select_copyset() {
            Some(cs) => cs,
            None => {
                return None;
            },
        };
        let copy: CopySet = copyset.duplicate();
        self.partition_copysets.insert(partition.0, copyset);
        Some(copy)
    }

    /// Takes in the acknowledgements for a batch that went to `nodes`, and
    /// says whether the write quorum is met. Every node of `nodes` that
    /// acknowledges counts once, and is noted as having reached the last
    /// offset of the batch. Fewer such nodes than the write quorum asks for
    /// is no quorum.
    pub fn replicate_to_nodes(
        &mut self,
        partition: PartitionId,
        batch: &RecordBatch,
        nodes: &Vec<u64>,
        acks: &Vec<u64>,
    ) -> (r: Result<(), PyralogError>)
        requires
            old(self).wf(),
        ensures
            final(self).wf(),
            final(self).spec_config() == old(self).spec_config(),
            final(self).spec_cluster() == old(self).spec_cluster(),
            final(self).spec_copysets() == old(self).spec_copysets(),
            r is Ok <==> acked(acks@, nodes@, acks@.len() as int).len() >= old(
                self,
            ).spec_config().quorum.write_quorum,
            r matches Err(e) ==> e is QuorumNotAvailable,
            forall|n: u64|
                acked(acks@, nodes@, acks@.len() as int).contains(n) && batch.records@.len() > 0
                    ==> #[trigger] final(self).spec_sync().spec_offsets().contains_key(n) && final(self).spec_sync().spec_offsets()[n] == batch.records@.last().offset,
            forall|n: u64|
                !(acked(acks@, nodes@, acks@.len() as int).contains(n) && batch.records@.len() > 0)
                    ==> (final(self).spec_sync().spec_offsets().contains_key(n) <==> #[trigger] old(
                    self,
                ).spec_sync().spec_offsets().contains_key(n)) && (old(
                    self,
                ).spec_sync().spec_offsets().contains_key(n) ==> final(self).spec_sync().spec_offsets()[n] == old(self).spec_sync().spec_offsets()[n]),
    {
        let last: Option<LogOffset> = batch.last_offset();
        let ghost offsets0 = self.sync_manager.spec_offsets();
        let mut counted: Vec<u64> = Vec::new();
        let n: usize = acks.len();
        let mut i: usize = 0;
        while i < n
            invariant
                i <= n,
                n == acks@.len(),
                self.wf(),
                self.config == old(self).config,
                self.copyset_selector == old(self).copyset_selector,
                self.partition_copysets == old(self).partition_copysets,
                last is Some <==> batch.records@.len() > 0,
                last matches Some(o) ==> o == batch.records@.last().offset,
                counted@.no_duplicates(),
                counted@.to_set() == acked(acks@, nodes@, i as int),
                forall|x: u64|
                    acked(acks@, nodes@, i as int).contains(x) && last is Some
                        ==> #[trigger] self.sync_manager.spec_offsets().contains_key(x)
                        && self.sync_manager.spec_offsets()[x] == last->0,
                forall|x: u64|
                    !(acked(acks@, nodes@, i as int).contains(x) && last is Some) ==> (
                    self.sync_manager.spec_offsets().contains_key(x) <==> #[trigger] offsets0.contains_key(
                        x,
                    )) && (offsets0.contains_key(x) ==> self.sync_manager.spec_offsets()[x]
                        == offsets0[x]),
            decreases n - i,
        {
            let node: u64 = acks[i];
            if contains_node(nodes, node) {
                if !contains_node(&counted, node) {
                    let ghost before = counted@;
                    counted.push(node);
                    proof {
                        assert(counted@.to_set() =~= before.to_set().insert(node)) by {
                            assert forall|x: u64|
                                counted@.to_set().contains(x) <==> before.to_set().insert(
                                    node,
                                ).contains(x) by {
                                if before.contains(x) {
                                    let k = choose|k: int| 0 <= k < before.len() && before[k] == x;
                                    assert(counted@[k] == x);
                                }
                                if x == node {
                                    assert(counted@[before.len() as int] == x);
                                }
                            }
                        }
                    }
                }
                match last {
                    Some(o) => {
                        self.sync_manager.update_offset(node, o);
                    },
                    None => {},
                }
            }
            proof {
                let m1 = self.sync_manager.spec_offsets();
                let set1 = acked(acks@, nodes@, i + 1);
                assert forall|x: u64| set1.contains(x) && last is Some implies #[trigger] m1.contains_key(
                    x,
                ) && m1[x] == last->0 by {
                }
            }
            i += 1;
        }
        proof {
            counted@.unique_seq_to_set();
        }
        if counted.len() >= self.config.quorum.write_quorum {
            Ok(())
        } else {
            Err(PyralogError::QuorumNotAvailable)
        }
    }

    /// Notes that replication to `node_id` has reached `offset`.
    pub fn update_progress(&mut self, node_id: u64, offset: LogOffset)
        requires
            old(self).wf(),
        ensures
            final(self).wf(),
            final(self).spec_config() == old(self).spec_config(),
            final(self).spec_cluster() == old(self).spec_cluster(),
            final(self).spec_copysets() == old(self).spec_copysets(),
            final(self).spec_sync().spec_offsets() == old(self).spec_sync().spec_offsets().insert(
                node_id,
                offset,
            ),
    {
        self.sync_manager.update_offset(node_id, offset);
    }

    /// The nodes that are at most `max_lag` behind the node that has come
    /// furthest.
    pub fn get_in_sync_replicas(&self, max_lag: u64) -> (r: Vec<u64>)
        requires
            self.wf(),
        ensures
            r@ == self.spec_sync().spec_nodes().filter(
                |n: u64|
                    self.spec_sync().spec_max() - self.spec_sync().spec_offsets()[n].0 <= max_lag,
            ),
    {
        self.sync_manager.get_in_sync_nodes(max_lag)
    }

    /// The committed offset: the highest offset that a write quorum of the
    /// nodes that have reported has reached, which is the offset of the
    /// node that comes in at the place of the write quorum when they are
    /// ranked by how far they have come. A node that lags behind does not
    /// hold it back. Zero while fewer nodes than the write quorum asks for
    /// have reported.
    pub fn committed_offset(&self) -> (r: LogOffset)
        requires
            self.wf(),
        ensures
            is_quorum_committed(
                self.spec_sync().spec_offsets(),
                self.spec_sync().spec_nodes(),
                self.spec_config().quorum.write_quorum,
                r.0,
            ),
    {
        self.sync_manager.quorum_committed_offset(
            self.sync_manager.known_nodes(),
            self.config.quorum.write_quorum,
        )
    }

    /// The committed offset of a partition whose copies are on `nodes`:
    /// the highest offset that a write quorum of them has reached.
    pub fn quorum_committed_offset(&self, nodes: &Vec<u64>) -> (r: LogOffset)
        requires
            self.wf(),
        ensures
            is_quorum_committed(
                self.spec_sync().spec_offsets(),
                nodes@,
                self.spec_config().quorum.write_quorum,
                r.0,
            ),
    {
        self.sync_manager.quorum_committed_offset(nodes, self.config.quorum.write_quorum)
    }

    /// Whether a write quorum of the nodes that have reported has reached
    /// `offset`: what waiting for replication waits for.
    pub fn replication_reached(&self, offset: LogOffset) -> (r: bool)
        requires
            self.wf(),
        ensures
            r == (ready_count(
                self.spec_sync().spec_offsets(),
                self.spec_sync().spec_nodes(),
                offset.0,
                self.spec_sync().spec_nodes().len() as int,
            ) >= self.spec_config().quorum.write_quorum),
    {
        self.sync_manager.quorum_reached(
            self.sync_manager.known_nodes(),
            offset,
            self.config.quorum.write_quorum,
        )
    }

    /// Whether a write quorum of the copyset of `partition` has reached
    /// `offset`: the records up to it are then stored on as many of the
    /// partition's nodes as the write quorum asks for. A partition without
    /// a copyset has no quorum.
    pub fn copyset_reached(&self, partition: PartitionId, offset: LogOffset) -> (r: bool)
        requires
            self.wf(),
        ensures
            r == (self.spec_copysets().contains_key(partition.0) && ready_count(
                self.spec_sync().spec_offsets(),
                self.spec_copysets()[partition.0].nodes@,
                offset.0,
                self.spec_copysets()[partition.0].nodes@.len() as int,
            ) >= self.spec_config().quorum.write_quorum),
    {
        match self.partition_copysets.get(&partition.0) {
            Some(cs) => self.sync_manager.quorum_reached(
                &cs.nodes,
                offset,
                self.config.quorum.write_quorum,
            ),
            None => false,
        }
    }

    /// How far the replication of `partition` has come: the offset of its
    /// copyset's leader, the offsets of the other nodes of the copyset that
    /// have reported, and the replicas that are in sync. A partition
    /// without a copyset gets one drawn; a cluster too small for one does
    /// not know the partition.
    pub fn replication_status(&mut self, partition: PartitionId) -> (r: Result<
        ReplicationStatus,
        PyralogError,
    >)
        requires
            old(self).wf(),
        ensures
            final(self).wf(),
            final(self).spec_config() == old(self).spec_config(),
            final(self).spec_cluster() == old(self).spec_cluster(),
            final(self).spec_sync() == old(self).spec_sync(),
            match r {
                Ok(st) => {
                    let offsets = old(self).spec_sync().spec_offsets();
                    &&& final(self).spec_copysets().contains_key(partition.0)
                    &&& st.partition == partition
                    &&& st.leader_offset.0 == crate::replication::sync::offset_or_zero(
                        offsets,
                        final(self).spec_copysets()[partition.0].leader,
                    )
                    &&& st.follower_offsets@ == followers(
                        offsets,
                        final(self).spec_copysets()[partition.0].nodes@,
                        final(self).spec_copysets()[partition.0].leader,
                        final(self).spec_copysets()[partition.0].nodes@.len() as int,
                    )
                    &&& st.in_sync_replicas@ == old(self).spec_sync().spec_nodes().filter(
                        |n: u64|
                            old(self).spec_sync().spec_max() - old(
                                self,
                            ).spec_sync().spec_offsets()[n].0 <= IN_SYNC_LAG,
                    )
                },
                Err(e) => {
                    &&& e == PyralogError::PartitionNotFound(partition.0 as u64)
                    &&& !old(self).spec_copysets().contains_key(partition.0)
                    &&& final(self).spec_copysets() == old(self).spec_copysets()
                },
            },
    {
        let copyset: CopySet = match self.get_copyset(partition) {
            Some(cs) => cs,
            None => {
                return Err(PyralogError::PartitionNotFound(partition.0 as u64));
            },
        };
        let leader_offset: LogOffset = match self.sync_manager.get_offset(copyset.leader) {
            Some(o) => o,
            None => LogOffset(0),
        };
        let ghost offsets = self.sync_manager.spec_offsets();
        let mut follower_offsets: Vec<(u64, LogOffset)> = Vec::new();
        let n: usize = copyset.nodes.len();
        let mut i: usize = 0;
        while i < n
            invariant
                i <= n,
                n == copyset.nodes@.len(),
                offsets == self.sync_manager.spec_offsets(),
                follower_offsets@ == followers(offsets, copyset.nodes@, copyset.leader, i as int),
            decreases n - i,
        {
            let node: u64 = copyset.nodes[i];
            if node != copyset.leader {
                match self.sync_manager.get_offset(node) {
                    Some(o) => {
                        follower_offsets.push((node, o));
                    },
                    None => {},
                }
            }
            i += 1;
        }
        let in_sync_replicas: Vec<u64> = self.get_in_sync_replicas(IN_SYNC_LAG);
        Ok(ReplicationStatus { partition, leader_offset, follower_offsets, in_sync_replicas })
    }

    /// Whether `partition` has a copyset or can get one: a copyset can be
    /// drawn where the cluster has as many nodes as the replication factor
    /// asks for, and that is at least one.
    pub open spec fn has_copyset_for(&self, partition: u32) -> bool {
        let factor = self.spec_config().quorum.replication_factor;
        self.spec_copysets().contains_key(partition) || (self.spec_cluster().len() >= factor
            && factor >= 1)
    }

    /// Replicates a batch of the first partition: the batch has gone to the
    /// partition's copyset, and `acks` are the nodes that acknowledged it.
    /// A cluster too small for a copyset is a replication error, and
    /// nothing is noted then; fewer acknowledgements from nodes of the
    /// copyset than the write quorum asks for is no quorum.
    pub fn replicate(&mut self, batch: &RecordBatch, acks: &Vec<u64>) -> (r: Result<
        (),
        PyralogError,
    >)
        requires
            old(self).wf(),
        ensures
            final(self).wf(),
            final(self).spec_config() == old(self).spec_config(),
            final(self).spec_cluster() == old(self).spec_cluster(),
            final(self).spec_copysets().contains_key(0) <==> old(self).has_copyset_for(0),
            old(self).spec_copysets().contains_key(0) ==> final(self).spec_copysets() == old(
                self,
            ).spec_copysets(),
            !old(self).has_copyset_for(0) ==> final(self).spec_copysets() == old(
                self,
            ).spec_copysets() && final(self).spec_sync() == old(self).spec_sync(),
            r matches Err(e) ==> (e is ReplicationError <==> !old(self).has_copyset_for(0)),
            match r {
                Ok(_) => final(self).spec_copysets().contains_key(0) && acked(
                    acks@,
                    final(self).spec_copysets()[0].nodes@,
                    acks@.len() as int,
                ).len() >= old(self).spec_config().quorum.write_quorum,
                Err(e) => if final(self).spec_copysets().contains_key(0) {
                    e is QuorumNotAvailable && acked(
                        acks@,
                        final(self).spec_copysets()[0].nodes@,
                        acks@.len() as int,
                    ).len() < old(self).spec_config().quorum.write_quorum
                } else {
                    e is ReplicationError
                },
            },
    {
        let partition = PartitionId(0);
        let copyset: CopySet = match self.get_copyset(partition) {
            Some(cs) => cs,
            None => {
                return Err(
                    PyralogError::ReplicationError(String::from_str("Failed to get copyset")),
                );
            },
        };
        self.replicate_to_nodes(partition, batch, &copyset.nodes, acks)
    }

    /// The progress of the manager's nodes.
    pub fn sync_manager(&self) -> (r: &SyncManager)
        ensures
            *r == self.spec_sync(),
    {
        &self.sync_manager
    }
}

} // verus!
