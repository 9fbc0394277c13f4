//! The state a Raft node keeps, and the role changes it goes through.
//!
//! Log indices start at one: the entry with index `i` sits at position
//! `i - 1` of the log, and index zero stands for "no entry".

use vstd::prelude::*;

verus! {

/// The part a node plays in the current term.
#[derive(Debug, Clone, Copy, PartialEq, Eq, Structural)]
pub enum NodeRole {
    Follower,
    Candidate,
    Leader,
}

/// One entry of the replicated log.
#[derive(Debug, Clone)]
pub struct LogEntry {
    pub term: u64,
    pub index: u64,
    pub data: Vec<u8>,
}

/// A log entry as a mathematical value.
pub struct LogEntryView {
    pub term: u64,
    pub index: u64,
    pub data: Seq<u8>,
}

impl View for LogEntry {
    type V = LogEntryView;

    open spec fn view(&self) -> LogEntryView {
        LogEntryView { term: self.term, index: self.index, data: self.data@ }
    }
}

/// The entries of a log as mathematical values, in log order.
pub open spec fn entries_view(log: Seq<LogEntry>) -> Seq<LogEntryView> {
    log.map_values(|e: LogEntry| e@)
}

/// Every entry carries the index of the slot it sits in.
pub open spec fn indices_contiguous(log: Seq<LogEntryView>) -> bool {
    forall|i: int| 0 <= i < log.len() ==> (#[trigger] log[i]).index == i + 1
}

/// The term of the last entry, or zero for an empty log.
pub open spec fn last_term_of(log: Seq<LogEntryView>) -> u64 {
    if log.len() == 0 {
        0
    } else {
        log[log.len() - 1].term
    }
}

impl LogEntry {
    pub fn new(term: u64, index: u64, data: Vec<u8>) -> (r: Self)
        ensures
            r.term == term,
            r.index == index,
            r.data == data,
    {
        Self { term, index, data }
    }

    /// A second entry with the same term, index and payload.
    pub fn duplicate(&self) -> (r: Self)
        ensures
            r@ == self@,
    {
        Self { term: self.term, index: self.index, data: self.data.clone() }
    }
}

/// What a node must have on stable storage before it answers a request.
#[derive(Debug, Clone)]
pub struct PersistentState {
    /// The latest term this node has seen.
    pub current_term: u64,
    /// The candidate this node voted for in the current term.
    pub voted_for: Option<u64>,
    /// The log entries, oldest first.
    pub log: Vec<LogEntry>,
}

impl Default for PersistentState {
    fn default() -> (r: Self)
        ensures
            r.current_term == 0,
            r.voted_for is None,
            r.log@.len() == 0,
    {
        Self { current_term: 0, voted_for: None, log: Vec::new() }
    }
}

/// State that every node rebuilds after a restart.
#[derive(Debug, Clone)]
pub struct VolatileState {
    /// The highest index known to be committed.
    pub commit_index: u64,
    /// The highest index applied to the state machine.
    pub last_applied: u64,
}

impl Default for VolatileState {
    fn default() -> (r: Self)
        ensures
            r.commit_index == 0,
            r.last_applied == 0,
    {
        Self { commit_index: 0, last_applied: 0 }
    }
}

/// What a leader tracks of every node of the cluster, by position in the
/// cluster list.
#[derive(Debug, Clone)]
pub struct LeaderState {
    /// The index of the next entry to send to each node.
    pub next_index: Vec<u64>,
    /// The highest index known to be stored on each node.
    pub match_index: Vec<u64>,
}

impl LeaderState {
    /// The state of a leader that has just won: every node is sent the entry
    /// after the leader's last one next, and none is known to store anything.
    pub fn new(cluster_size: usize, last_log_index: u64) -> (r: Self)
        requires
            last_log_index < u64::MAX,
        ensures
            r.next_index@ == Seq::new(cluster_size as nat, |i: int| (last_log_index + 1) as u64),
            r.match_index@ == Seq::new(cluster_size as nat, |i: int| 0u64),
    {
        let mut next_index: Vec<u64> = Vec::new();
        let mut match_index: Vec<u64> = Vec::new();
        let mut i: usize = 0;
        while i < cluster_size
            invariant
                i <= cluster_size,
                last_log_index < u64::MAX,
                next_index@ == Seq::new(i as nat, |j: int| (last_log_index + 1) as u64),
                match_index@ == Seq::new(i as nat, |j: int| 0u64),
            decreases cluster_size - i,
        {
            next_index.push(last_log_index + 1);
            match_index.push(0);
            i += 1;
        }
        Self { next_index, match_index }
    }
}

/// The leader's bookkeeping as a mathematical value.
pub struct LeaderView {
    pub next_index: Seq<u64>,
    pub match_index: Seq<u64>,
}

/// The whole state of a node as a mathematical value.
pub struct NodeView {
    pub node_id: u64,
    pub role: NodeRole,
    pub current_term: u64,
    pub voted_for: Option<u64>,
    pub log: Seq<LogEntryView>,
    pub commit_index: u64,
    pub last_applied: u64,
    pub leader: Option<LeaderView>,
}

/// The whole state of a node.
pub struct NodeState {
    pub node_id: u64,
    pub role: NodeRole,
    pub persistent: PersistentState,
    pub volatile: VolatileState,
    pub leader: Option<LeaderState>,
}

impl View for NodeState {
    type V = NodeView;

    open spec fn view(&self) -> NodeView {
        NodeView {
            node_id: self.node_id,
            role: self.role,
            current_term: self.persistent.current_term,
            voted_for: self.persistent.voted_for,
            log: entries_view(self.persistent.log@),
            commit_index: self.volatile.commit_index,
            last_applied: self.volatile.last_applied,
            leader: match self.leader {
                Some(l) => Some(LeaderView { next_index: l.next_index@, match_index: l.match_index@ }),
                None => None,
            },
        }
    }
}

impl NodeView {
    /// The index of the last entry: the number of entries.
    pub open spec fn last_log_index(self) -> int {
        self.log.len() as int
    }

    /// The term of the last entry, or zero for an empty log.
    pub open spec fn last_log_term(self) -> u64 {
        last_term_of(self.log)
    }

    /// The rule every reachable state obeys: each entry carries the index
    /// of the slot it sits in.
    pub open spec fn wf(self) -> bool {
        indices_contiguous(self.log)
    }

    /// The state after stepping down to follower in `term`.
    pub open spec fn as_follower(self, term: u64) -> NodeView {
        NodeView { role: NodeRole::Follower, current_term: term, voted_for: None, leader: None, ..self }
    }

    /// The state after standing for election in the next term.
    pub open spec fn as_candidate(self) -> NodeView {
        NodeView {
            role: NodeRole::Candidate,
            current_term: (self.current_term + 1) as u64,
            voted_for: Some(self.node_id),
            leader: None,
            ..self
        }
    }

    /// The state after winning the election in a cluster of `cluster_size`.
    pub open spec fn as_leader(self, cluster_size: nat) -> NodeView {
        NodeView {
            role: NodeRole::Leader,
            leader: Some(
                LeaderView {
                    next_index: Seq::new(cluster_size, |i: int| (self.log.len() + 1) as u64),
                    match_index: Seq::new(cluster_size, |i: int| 0u64),
                },
            ),
            ..self
        }
    }
}

impl NodeState {
    /// A follower in term zero with an empty log.
    pub fn new(node_id: u64) -> (r: Self)
        ensures
            r@ == (NodeView {
                node_id,
                role: NodeRole::Follower,
                current_term: 0,
                voted_for: None,
                log: Seq::empty(),
                commit_index: 0,
                last_applied: 0,
                leader: None,
            }),
            r@.wf(),
    {
        let r = Self {
            node_id,
            role: NodeRole::Follower,
            persistent: PersistentState::default(),
            volatile: VolatileState::default(),
            leader: None,
        };
        assert(r@.log =~= Seq::empty());
        r
    }

    /// Steps down: adopts `term`, forgets the vote and any leader bookkeeping.
    pub fn become_follower(&mut self, term: u64)
        ensures
            final(self)@ == old(self)@.as_follower(term),
    {
        self.role = NodeRole::Follower;
        self.persistent.current_term = term;
        self.persistent.voted_for = None;
        self.leader = None;
    }

    /// Stands for election: enters the next term and votes for itself.
    pub fn become_candidate(&mut self)
        requires
            old(self).persistent.current_term < u64::MAX,
        ensures
            final(self)@ == old(self)@.as_candidate(),
    {
        self.role = NodeRole::Candidate;
        self.persistent.current_term = self.persistent.current_term + 1;
        self.persistent.voted_for = Some(self.node_id);
        self.leader = None;
    }

    /// Takes the lead of a cluster of `cluster_size` nodes.
    pub fn become_leader(&mut self, cluster_size: usize)
        requires
            old(self).persistent.log@.len() < u64::MAX,
        ensures
            final(self)@ == old(self)@.as_leader(cluster_size as nat),
    {
        self.role = NodeRole::Leader;
        let last_log_index: u64 = self.persistent.log.len() as u64;
        self.leader = Some(LeaderState::new(cluster_size, last_log_index));
    }

    /// The index of the last log entry, zero for an empty log.
    pub fn last_log_index(&self) -> (r: u64)
        ensures
            r == self@.last_log_index(),
    {
        self.persistent.log.len() as u64
    }

    /// The term of the last log entry, zero for an empty log.
    pub fn last_log_term(&self) -> (r: u64)
        ensures
            r == self@.last_log_term(),
    {
        let n: usize = self.persistent.log.len();
        if n == 0 {
            0
        } else {
            self.persistent.log[n - 1].term
        }
    }
}

} // verus!
