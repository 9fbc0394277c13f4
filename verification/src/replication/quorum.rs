//! Quorum settings and the counting of answers.

use vstd::prelude::*;
use vstd::string::StringExecFns;
use std::collections::HashSet;
use crate::base::partition::contains_node;

verus! {

/// How replicas are picked.
#[derive(Debug, Clone)]
pub enum ReplicaSelectionStrategy {
    /// One after the other.
    RoundRobin,
    /// The nearest ones first.
    Nearest,
    /// At random.
    Random,
    /// Those of one datacenter first.
    DatacenterAware { preferred_dc: String },
}

/// The quorum settings of a log.
#[derive(Debug, Clone)]
pub struct QuorumConfig {
    /// The number of copies of every record.
    pub replication_factor: usize,
    /// The number of copies that must be written before a write counts.
    pub write_quorum: usize,
    /// The number of copies that must be asked before a read counts.
    pub read_quorum: usize,
    /// How replicas are picked.
    pub selection_strategy: ReplicaSelectionStrategy,
}

impl ReplicaSelectionStrategy {
    /// Whether two strategies say the same.
    pub open spec fn same_as(self, other: Self) -> bool {
        match (self, other) {
            (Self::RoundRobin, Self::RoundRobin) => true,
            (Self::Nearest, Self::Nearest) => true,
            (Self::Random, Self::Random) => true,
            (
                Self::DatacenterAware { preferred_dc: a },
                Self::DatacenterAware { preferred_dc: b },
            ) => a@ == b@,
            _ => false,
        }
    }

    /// A second strategy that says the same.
    pub fn duplicate(&self) -> (r: Self)
        ensures
            r.same_as(*self),
    {
        match self {
            Self::RoundRobin => Self::RoundRobin,
            Self::Nearest => Self::Nearest,
            Self::Random => Self::Random,
            Self::DatacenterAware { preferred_dc } => Self::DatacenterAware {
                preferred_dc: preferred_dc.clone(),
            },
        }
    }
}

/// The four ways a quorum configuration can be wrong, and the one way it
/// can be right.
pub enum QuorumVerdict {
    NoReplicas,
    BadWriteQuorum,
    BadReadQuorum,
    NoOverlap,
    Valid,
}

impl QuorumConfig {
    /// Whether two configurations say the same.
    pub open spec fn same_as(self, other: Self) -> bool {
        &&& self.replication_factor == other.replication_factor
        &&& self.write_quorum == other.write_quorum
        &&& self.read_quorum == other.read_quorum
        &&& self.selection_strategy.same_as(other.selection_strategy)
    }

    /// A second configuration that says the same.
    pub fn duplicate(&self) -> (r: Self)
        ensures
            r.same_as(*self),
    {
        Self {
            replication_factor: self.replication_factor,
            write_quorum: self.write_quorum,
            read_quorum: self.read_quorum,
            selection_strategy: self.selection_strategy.duplicate(),
        }
    }

    /// The rules of a quorum configuration, in the order in which they are
    /// tested: there is at least one replica; the write quorum is at least
    /// one and at most the replication factor; so is the read quorum; and
    /// the two quorums together exceed the replication factor, so that any
    /// write quorum and any read quorum share a node.
    pub open spec fn verdict(self) -> QuorumVerdict {
        if self.replication_factor == 0 {
            QuorumVerdict::NoReplicas
        } else if self.write_quorum == 0 || self.write_quorum > self.replication_factor {
            QuorumVerdict::BadWriteQuorum
        } else if self.read_quorum == 0 || self.read_quorum > self.replication_factor {
            QuorumVerdict::BadReadQuorum
        } else if self.write_quorum + self.read_quorum <= self.replication_factor {
            QuorumVerdict::NoOverlap
        } else {
            QuorumVerdict::Valid
        }
    }

    /// The message that goes with a verdict.
    pub open spec fn message(v: QuorumVerdict) -> Seq<char> {
        match v {
            QuorumVerdict::NoReplicas => "Replication factor must be at least 1"@,
            QuorumVerdict::BadWriteQuorum => "Invalid write quorum size"@,
            QuorumVerdict::BadReadQuorum => "Invalid read quorum size"@,
            QuorumVerdict::NoOverlap => "Read and write quorums must overlap for consistency"@,
            QuorumVerdict::Valid => Seq::empty(),
        }
    }

    /// Write and read quorum are both the smallest majority.
    pub fn majority(replication_factor: usize) -> (r: Self)
        ensures
            r.replication_factor == replication_factor,
            r.write_quorum == replication_factor / 2 + 1,
            r.read_quorum == replication_factor / 2 + 1,
            r.selection_strategy is RoundRobin,
            replication_factor > 0 ==> r.verdict() is Valid,
    {
        let quorum_size: usize = replication_factor / 2 + 1;
        Self {
            replication_factor,
            write_quorum: quorum_size,
            read_quorum: quorum_size,
            selection_strategy: ReplicaSelectionStrategy::RoundRobin,
        }
    }

    /// Writes count after the first copy; reads ask every replica.
    pub fn write_optimized(replication_factor: usize) -> (r: Self)
        ensures
            r.replication_factor == replication_factor,
            r.write_quorum == 1,
            r.read_quorum == replication_factor,
            r.selection_strategy is Nearest,
            replication_factor > 0 ==> r.verdict() is Valid,
    {
        Self {
            replication_factor,
            write_quorum: 1,
            read_quorum: replication_factor,
            selection_strategy: ReplicaSelectionStrategy::Nearest,
        }
    }

    /// Writes go to every replica; reads ask any one.
    pub fn read_optimized(replication_factor: usize) -> (r: Self)
        ensures
            r.replication_factor == replication_factor,
            r.write_quorum == replication_factor,
            r.read_quorum == 1,
            r.selection_strategy is Nearest,
            replication_factor > 0 ==> r.verdict() is Valid,
    {
        Self {
            replication_factor,
            write_quorum: replication_factor,
            read_quorum: 1,
            selection_strategy: ReplicaSelectionStrategy::Nearest,
        }
    }

    /// Tests the configuration against the rules and names the first rule
    /// it breaks.
    pub fn validate(&self) -> (r: Result<(), String>)
        ensures
            r is Ok <==> self.verdict() is Valid,
            r matches Err(msg) ==> msg@ == Self::message(self.verdict()),
    {
        if self.replication_factor == 0 {
            return Err(String::from_str("Replication factor must be at least 1"));
        }
        if self.write_quorum == 0 || self.write_quorum > self.replication_factor {
            return Err(String::from_str("Invalid write quorum size"));
        }
        if self.read_quorum == 0 || self.read_quorum > self.replication_factor {
            return Err(String::from_str("Invalid read quorum size"));
        }
        if self.write_quorum <= self.replication_factor - self.read_quorum {
            return Err(String::from_str("Read and write quorums must overlap for consistency"));
        }
        Ok(())
    }
}

impl Default for QuorumConfig {
    /// The majority quorum of three replicas.
    fn default() -> (r: Self)
        ensures
            r.replication_factor == 3,
            r.write_quorum == 2,
            r.read_quorum == 2,
            r.selection_strategy is RoundRobin,
    {
        Self::majority(3)
    }
}

/// Under a valid configuration every write quorum and every read quorum
/// share a node: of the replicas of a partition, any set of at least as
/// many nodes as the write quorum asks for meets any set of at least as
/// many nodes as the read quorum asks for. So a read that asks a read
/// quorum reaches a node that holds what a write quorum has stored.
pub proof fn lemma_quorums_intersect(
    config: QuorumConfig,
    replicas: Set<u64>,
    writers: Set<u64>,
    readers: Set<u64>,
)
    requires
        config.verdict() is Valid,
        replicas.finite(),
        replicas.len() == config.replication_factor,
        writers.subset_of(replicas),
        readers.subset_of(replicas),
        writers.len() >= config.write_quorum,
        readers.len() >= config.read_quorum,
    ensures
        exists|n: u64| writers.contains(n) && readers.contains(n),
{
    if writers.disjoint(readers) {
        vstd::set_lib::lemma_set_disjoint_lens(writers, readers);
        vstd::set_lib::lemma_len_subset(writers.union(readers), replicas);
    }
}

/// The answers to one operation, counted against a target. A quorum is a
/// number of nodes: a node counts once, however often it answers.
#[derive(Debug)]
pub struct QuorumSet {
    /// The nodes that were asked.
    pub all_nodes: Vec<u64>,
    /// The nodes that have answered.
    pub required_nodes: HashSet<u64>,
    /// The number of nodes that have answered.
    pub responses: usize,
    /// The number of answers needed.
    pub target: usize,
}

impl QuorumSet {
    /// Only nodes that were asked have answered, and the count is their
    /// number.
    pub open spec fn wf(&self) -> bool {
        &&& self.required_nodes@.subset_of(self.all_nodes@.to_set())
        &&& self.responses == self.required_nodes@.len()
    }

    /// No answers yet.
    pub fn new(all_nodes: Vec<u64>, target: usize) -> (r: Self)
        ensures
            r.wf(),
            r.all_nodes == all_nodes,
            r.required_nodes@ == Set::<u64>::empty(),
            r.responses == 0,
            r.target == target,
    {
        Self { all_nodes, required_nodes: HashSet::new(), responses: 0, target }
    }

    /// Takes in the answer of `node_id`, if it is one of the nodes that
    /// were asked, and says whether it is. The node is among those that
    /// have answered afterwards, and counts once: a repeated answer adds
    /// nothing.
    pub fn add_response(&mut self, node_id: u64) -> (r: bool)
        requires
            old(self).wf(),
        ensures
            final(self).wf(),
            r == old(self).all_nodes@.contains(node_id),
            final(self).all_nodes == old(self).all_nodes,
            final(self).target == old(self).target,
            r ==> final(self).required_nodes@ == old(self).required_nodes@.insert(node_id),
            !r ==> final(self).required_nodes@ == old(self).required_nodes@,
            final(self).responses == final(self).required_nodes@.len(),
            final(self).responses == old(self).responses + (if r && !old(
                self,
            ).required_nodes@.contains(node_id) {
                1int
            } else {
                0int
            }),
    {
        if contains_node(&self.all_nodes, node_id) {
            let ghost before = self.required_nodes@;
            let fresh: bool = self.required_nodes.insert(node_id);
            proof {
                let asked = self.all_nodes@.to_set();
                vstd::seq_lib::seq_to_set_is_finite(self.all_nodes@);
                assert(asked.contains(node_id));
                assert(before.insert(node_id).subset_of(asked));
                self.all_nodes@.lemma_cardinality_of_set();
                vstd::set_lib::lemma_len_subset(before, asked);
                vstd::set_lib::lemma_len_subset(before.insert(node_id), asked);
                if !before.contains(node_id) {
                    assert(before.insert(node_id).len() == before.len() + 1);
                } else {
                    assert(before.insert(node_id) =~= before);
                }
            }
            if fresh {
                let asked: usize = self.all_nodes.len();
                assert(self.responses < asked);
                self.responses = self.responses + 1;
            }
            return true;
        }
        false
    }

    /// Whether enough answers are in.
    pub fn is_satisfied(&self) -> (r: bool)
        ensures
            r == (self.responses >= self.target),
    {
        self.responses >= self.target
    }

    /// The nodes that have not answered, in the order in which they were
    /// asked.
    pub fn remaining_nodes(&self) -> (r: Vec<u64>)
        ensures
            r@ == self.all_nodes@.filter(|n: u64| !self.required_nodes@.contains(n)),
    {
        let ghost pred = |n: u64| !self.required_nodes@.contains(n);
        let mut out: Vec<u64> = Vec::new();
        let n: usize = self.all_nodes.len();
        let mut i: usize = 0;
        while i < n
            invariant
                i <= n,
                n == self.all_nodes@.len(),
                pred == (|n: u64| !self.required_nodes@.contains(n)),
                out@ == self.all_nodes@.subrange(0, i as int).filter(pred),
            decreases n - i,
        {
            let node: u64 = self.all_nodes[i];
            let answered: bool = self.required_nodes.contains(&node);
            proof {
                let prefix = self.all_nodes@.subrange(0, i as int);
                let next = self.all_nodes@.subrange(0, i + 1);
                assert(next.drop_last() =~= prefix);
                reveal(Seq::filter);
            }
            if !answered {
                out.push(node);
            }
            i += 1;
        }
        assert(self.all_nodes@.subrange(0, n as int) =~= self.all_nodes@);
        out
    }
}

} // verus!
