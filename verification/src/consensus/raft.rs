//! A Raft node: the state machine together with its stable storage, its
//! election clock and the votes it has gathered.
//!
//! The node decides; the embedding program sends what the node hands out,
//! feeds in what arrives, and writes the image of the state file to disk
//! before it lets an answer leave.

use vstd::prelude::*;
use vstd::string::StringExecFns;
use bytes::Bytes;
use std::time::Instant;
use crate::base::buffer::{buffer_as_slice, bytes_of};
use crate::base::clock::{elapsed_since, monotonic_now, whole_millis};
use crate::base::error::PyralogError;
use crate::base::offset::LogOffset;
use crate::base::partition::contains_node;
use crate::consensus::election::{
    election_is_due, ElectionTimeoutConfig, should_start_election,
};
use crate::consensus::raft_log::{PersistentView, RaftLog, state_encodes, state_unwire};
use crate::consensus::rpc::{
    AppendEntriesRequest, AppendEntriesResponse, VoteRequest, VoteResponse,
};
use crate::consensus::state::{
    entries_view, indices_contiguous, LogEntry, LogEntryView, NodeRole, NodeState, NodeView,
};
use crate::consensus::vote::majority_of;
use crate::storage::names::{decimal_digits, decimal_text};

verus! {

/// The settings of a Raft node.
#[derive(Debug, Clone)]
pub struct RaftConfig {
    /// This node.
    pub node_id: u64,
    /// All nodes of the cluster, this one included. The list is fixed.
    pub cluster_nodes: Vec<u64>,
    /// The directory that holds the node's state file.
    pub data_dir: String,
    /// The window from which election timeouts are drawn.
    pub election_timeout: ElectionTimeoutConfig,
}

/// The persistent part of a node's state.
pub open spec fn persistent_of(s: NodeView) -> PersistentView {
    PersistentView { current_term: s.current_term, voted_for: s.voted_for, log: s.log }
}

/// The name of the state file of node `node_id`.
pub open spec fn state_file_name_of(node_id: u64) -> Seq<char> {
    seq!['r', 'a', 'f', 't', '-'] + decimal_digits(node_id as nat) + seq!['.', 'l', 'o', 'g']
}

/// The votes after `from` has granted its vote: `from` is added unless it
/// is counted already.
pub open spec fn with_vote(votes: Seq<u64>, from: u64) -> Seq<u64> {
    if votes.contains(from) {
        votes
    } else {
        votes.push(from)
    }
}

/// A Raft node.
pub struct RaftNode {
    config: RaftConfig,
    state: NodeState,
    log: RaftLog,
    last_heartbeat: Instant,
    votes: Vec<u64>,
}

impl RaftNode {
    /// The state of the node.
    pub closed spec fn spec_state(&self) -> NodeView {
        self.state@
    }

    /// The nodes that have voted for this node in its current candidacy.
    pub closed spec fn spec_votes(&self) -> Seq<u64> {
        self.votes@
    }

    /// The nodes of the cluster.
    pub closed spec fn spec_cluster(&self) -> Seq<u64> {
        self.config.cluster_nodes@
    }

    /// The bytes of the state file.
    pub closed spec fn spec_image(&self) -> Seq<u8> {
        self.log.spec_image()
    }

    /// The node's state is sound, its log leaves room for another entry,
    /// and every vote it counts comes from a node of the cluster and is
    /// counted once.
    pub closed spec fn wf(&self) -> bool {
        &&& self.state@.wf()
        &&& self.state.node_id == self.config.node_id
        &&& self.state@.log.len() < u64::MAX
        &&& self.votes@.no_duplicates()
        &&& forall|i: int| 0 <= i < self.votes@.len() ==> self.config.cluster_nodes@.contains(
            #[trigger] self.votes@[i],
        )
    }

    /// What `wf` says, for callers outside this module.
    pub proof fn lemma_wf(&self)
        requires
            self.wf(),
        ensures
            self.spec_state().wf(),
            self.spec_state().log.len() < u64::MAX,
            self.spec_votes().no_duplicates(),
            forall|i: int|
                0 <= i < self.spec_votes().len() ==> self.spec_cluster().contains(
                    #[trigger] self.spec_votes()[i],
                ),
    {
    }

    /// The name of the state file of node `node_id`.
    pub fn state_file_name(node_id: u64) -> (r: String)
        ensures
            r@ == state_file_name_of(node_id),
    {
        proof {
            reveal_strlit("raft-");
            reveal_strlit(".log");
        }
        let mut s: String = String::from_str("raft-");
        let digits: String = decimal_text(node_id);
        s.append(digits.as_str());
        s.append(".log");
        s
    }

    /// Whether every entry carries the index of its slot.
    fn log_is_contiguous(log: &Vec<LogEntry>) -> (r: bool)
        ensures
            r == indices_contiguous(entries_view(log@)),
    {
        let n: usize = log.len();
        let mut i: usize = 0;
        while i < n
            invariant
                i <= n,
                n == log@.len(),
                forall|j: int| 0 <= j < i ==> (#[trigger] entries_view(log@)[j]).index == j + 1,
            decreases n - i,
        {
            if log[i].index as u128 != i as u128 + 1 {
                assert(entries_view(log@)[i as int].index != i + 1);
                return false;
            }
            i += 1;
        }
        true
    }

    /// Whether a node can be made from a state file with the content
    /// `image`: the file is empty, or it decodes to a state whose log
    /// entries carry the indices of their slots and leave room for more.
    pub open spec fn loadable(image: Seq<u8>) -> bool {
        image.len() == 0 || (state_unwire(image) matches Some(p) && indices_contiguous(p.log)
            && p.log.len() < u64::MAX)
    }

    /// The error for a state file that no node can be made from: bytes
    /// that do not decode are a serialization error, a log that is out of
    /// order is a consensus error.
    pub open spec fn load_error(image: Seq<u8>, e: PyralogError) -> bool {
        if state_unwire(image) is None {
            e is SerializationError
        } else {
            e is ConsensusError
        }
    }

    /// The node is as it is made from a state file with the content
    /// `image`: a follower of the cluster that has counted no vote and
    /// committed nothing, with the term, the vote and the log that the file
    /// holds, or without any if the file is empty.
    pub open spec fn starts_from(&self, node_id: u64, cluster: Seq<u64>, image: Seq<u8>) -> bool {
        &&& self.wf()
        &&& self.spec_image() == image
        &&& self.spec_cluster() == cluster
        &&& self.spec_votes().len() == 0
        &&& self.spec_state().node_id == node_id
        &&& self.spec_state().role is Follower
        &&& self.spec_state().commit_index == 0
        &&& self.spec_state().last_applied == 0
        &&& self.spec_state().leader is None
        &&& image.len() == 0 ==> self.spec_state().current_term == 0
            && self.spec_state().voted_for is None && self.spec_state().log.len() == 0
        &&& image.len() > 0 ==> state_unwire(image) == Some(persistent_of(self.spec_state()))
    }

    /// A node in the state that its state file holds: a follower with the
    /// term, the vote and the log that were saved last, or a fresh follower
    /// if the file is empty. A file that does not decode is refused, and so
    /// is a log whose entries do not carry the indices of their slots.
    pub fn new(config: RaftConfig, image: Vec<u8>) -> (r: Result<Self, PyralogError>)
        ensures
            r is Ok <==> Self::loadable(image@),
            match r {
                Ok(node) => node.starts_from(config.node_id, config.cluster_nodes@, image@),
                Err(e) => Self::load_error(image@, e),
            },
    {
        let log = RaftLog::open(image);
        let persistent = match log.load_state() {
            Ok(p) => p,
            Err(e) => {
                return Err(e);
            },
        };
        if !Self::log_is_contiguous(&persistent.log) || persistent.log.len() as u64 == u64::MAX {
            return Err(PyralogError::ConsensusError(String::from_str("Corrupt Raft log")));
        }
        let mut state = NodeState::new(config.node_id);
        state.persistent = persistent;
        Ok(Self { config, state, log, last_heartbeat: monotonic_now(), votes: Vec::new() })
    }

    /// The image of the state file holds the node's term, vote and log.
    pub open spec fn saved(&self) -> bool {
        state_unwire(self.spec_image()) == Some(persistent_of(self.spec_state()))
    }

    /// Writes the persistent state to the image of the state file.
    fn persist(&mut self) -> (r: Result<(), PyralogError>)
        ensures
            final(self).state == old(self).state,
            final(self).config == old(self).config,
            final(self).votes == old(self).votes,
            r is Ok <==> state_encodes(persistent_of(old(self).spec_state())),
            match r {
                Ok(_) => state_unwire(final(self).spec_image()) == Some(
                    persistent_of(final(self).spec_state()),
                ),
                Err(e) => final(self).spec_image() == old(self).spec_image() && e
                    is SerializationError,
            },
    {
        self.log.save_state(&self.state.persistent)
    }

    /// Appends a value to the leader's log and returns the index it got.
    /// Only a leader takes proposals. The entry is in the log, and the log
    /// in the image of the state file, when the call returns; where the
    /// state does not encode, the entry stays in the log and the image is
    /// left as it was.
    pub fn propose(&mut self, value: Bytes) -> (r: Result<LogOffset, PyralogError>)
        requires
            old(self).wf(),
        ensures
            final(self).wf(),
            final(self).spec_cluster() == old(self).spec_cluster(),
            ({
                let s = old(self).spec_state();
                let appended = NodeView {
                    log: s.log.push(
                        LogEntryView {
                            term: s.current_term,
                            index: (s.log.len() + 1) as u64,
                            data: bytes_of(value),
                        },
                    ),
                    ..s
                };
                &&& r is Ok <==> s.role is Leader && s.log.len() + 2 <= u64::MAX && state_encodes(
                    persistent_of(appended),
                )
                &&& match r {
                    Ok(index) => {
                        &&& s.role is Leader
                        &&& index.0 == s.log.len() + 1
                        &&& final(self).spec_state() == appended
                        &&& state_unwire(final(self).spec_image()) == Some(
                            persistent_of(final(self).spec_state()),
                        )
                    },
                    Err(e) => {
                        &&& e is NotLeader <==> !(s.role is Leader)
                        &&& e is ConsensusError <==> s.role is Leader && s.log.len() + 2 > u64::MAX
                        &&& e is NotLeader || e is ConsensusError || e is SerializationError
                        &&& final(self).spec_image() == old(self).spec_image()
                        &&& final(self).spec_state() == if e is SerializationError {
                            appended
                        } else {
                            s
                        }
                    },
                }
            }),
    {
        if !matches!(self.state.role, NodeRole::Leader) {
            return Err(PyralogError::NotLeader(None));
        }
        let len: usize = self.state.persistent.log.len();
        if len as u64 >= u64::MAX - 1 {
            return Err(PyralogError::ConsensusError(String::from_str("Raft log is full")));
        }
        let index: u64 = len as u64 + 1;
        let term: u64 = self.state.persistent.current_term;
        let data: Vec<u8> = vstd::slice::slice_to_vec(buffer_as_slice(&value));
        let entry = LogEntry::new(term, index, data);
        let ghost ev = entry@;
        let ghost before = self.state.persistent.log@;
        self.state.persistent.log.push(entry);
        proof {
            assert(entries_view(self.state.persistent.log@) =~= entries_view(before).push(ev));
        }
        match self.persist() {
            Ok(_) => Ok(LogOffset(index)),
            Err(e) => Err(e),
        }
    }

    /// Answers a leader's append request. The node's state changes as the
    /// state machine says; a request that is not from an older term resets
    /// the election clock. The answer is given once the new state is in the
    /// image of the state file: the call fails where the entries are
    /// misnumbered or the new state does not encode, and the image then
    /// stays as it was.
    pub fn handle_append_entries(&mut self, request: AppendEntriesRequest) -> (r: Result<
        AppendEntriesResponse,
        PyralogError,
    >)
        requires
            old(self).wf(),
            old(self).spec_state().log.len() + request.entries@.len() < u64::MAX,
        ensures
            final(self).wf(),
            final(self).spec_state() == old(self).spec_state().after_append(request@),
            final(self).spec_cluster() == old(self).spec_cluster(),
            r is Ok <==> !(old(self).spec_state().append_verdict(request@) is Malformed)
                && state_encodes(persistent_of(old(self).spec_state().after_append(request@))),
            match r {
                Ok(resp) => {
                    &&& resp == old(self).spec_state().append_reply(request@)
                    &&& !(old(self).spec_state().append_verdict(request@) is Malformed)
                    &&& state_unwire(final(self).spec_image()) == Some(
                        persistent_of(final(self).spec_state()),
                    )
                },
                Err(e) => {
                    &&& e is InvalidRequest <==> old(self).spec_state().append_verdict(request@)
                        is Malformed
                    &&& !(e is InvalidRequest) ==> e is SerializationError
                    &&& final(self).spec_image() == old(self).spec_image()
                },
            },
    {
        let ghost s0 = self.state@;
        let stale: bool = request.term < self.state.persistent.current_term;
        let newer: bool = request.term > self.state.persistent.current_term;
        let resp: AppendEntriesResponse = match self.state.apply_append_entries(&request) {
            Ok(resp) => resp,
            Err(e) => {
                return Err(e);
            },
        };
        if !stale {
            self.last_heartbeat = monotonic_now();
            if newer {
                self.votes = Vec::new();
            }
        }
        proof {
            if s0.append_verdict(request@) is Accepted {
                crate::consensus::append::lemma_first_new_entry_bounds(
                    s0.log,
                    request@.prev_log_index as int,
                    request@.entries,
                    0,
                );
            }
        }
        match self.persist() {
            Ok(_) => Ok(resp),
            Err(e) => Err(e),
        }
    }

    /// Whether a vote request touches what the state file holds: it does
    /// where the vote is given or a higher term is adopted.
    pub open spec fn vote_touches(s: NodeView, request: VoteRequest) -> bool {
        s.grants_vote(request) || request.term > s.current_term
    }

    /// Answers a candidate's vote request. A vote that is given, and a
    /// higher term that is adopted, are in the image of the state file
    /// before the answer leaves; a request that changes neither leaves the
    /// image as it is. A vote that is given resets the election clock. The
    /// call fails only where the new state has to be saved and does not
    /// encode.
    pub fn handle_vote_request(&mut self, request: VoteRequest) -> (r: Result<
        VoteResponse,
        PyralogError,
    >)
        requires
            old(self).wf(),
        ensures
            final(self).wf(),
            final(self).spec_state() == old(self).spec_state().after_vote(request),
            final(self).spec_cluster() == old(self).spec_cluster(),
            r is Ok <==> !Self::vote_touches(old(self).spec_state(), request) || state_encodes(
                persistent_of(old(self).spec_state().after_vote(request)),
            ),
            match r {
                Ok(resp) => {
                    &&& resp == old(self).spec_state().vote_reply(request)
                    &&& if Self::vote_touches(old(self).spec_state(), request) {
                        final(self).saved()
                    } else {
                        final(self).spec_image() == old(self).spec_image()
                    }
                },
                Err(e) => e is SerializationError && final(self).spec_image() == old(
                    self,
                ).spec_image(),
            },
    {
        let newer: bool = request.term > self.state.persistent.current_term;
        let resp: VoteResponse = self.state.apply_vote_request(&request);
        if newer {
            self.votes = Vec::new();
        }
        if resp.vote_granted || newer {
            match self.persist() {
                Ok(_) => {},
                Err(e) => {
                    return Err(e);
                },
            }
        }
        if resp.vote_granted {
            self.last_heartbeat = monotonic_now();
        }
        Ok(resp)
    }

    /// Whether this node leads.
    pub fn is_leader(&self) -> (r: bool)
        ensures
            r == (self.spec_state().role is Leader),
    {
        matches!(self.state.role, NodeRole::Leader)
    }

    /// The leader as far as this node knows: itself if it leads.
    pub fn leader_id(&self) -> (r: Option<u64>)
        ensures
            r == (if self.spec_state().role is Leader {
                Some(self.spec_state().node_id)
            } else {
                None
            }),
    {
        if matches!(self.state.role, NodeRole::Leader) {
            Some(self.state.node_id)
        } else {
            None
        }
    }

    /// The highest index known to be committed.
    pub fn committed_offset(&self) -> (r: LogOffset)
        ensures
            r.0 == self.spec_state().commit_index,
    {
        LogOffset(self.state.volatile.commit_index)
    }

    /// The node's state.
    pub fn state(&self) -> (r: &NodeState)
        ensures
            r@ == self.spec_state(),
    {
        &self.state
    }

    /// The bytes of the state file as they should be on disk.
    pub fn state_image(&self) -> (r: &[u8])
        ensures
            r@ == self.spec_image(),
    {
        self.log.bytes()
    }

    /// Whether the node should stand for election now, given the timeout
    /// it drew: it should unless it leads, once it has heard nothing for as
    /// long as the timeout says.
    pub fn election_due(&self, timeout_ms: u64) -> (r: bool)
        ensures
            exists|elapsed_ms: u128|
                r == #[trigger] election_is_due(self.spec_state().role, elapsed_ms, timeout_ms),
            self.spec_state().role is Leader ==> !r,
            !(self.spec_state().role is Leader) && timeout_ms == 0 ==> r,
    {
        let waited = elapsed_since(&self.last_heartbeat);
        let elapsed_ms: u128 = whole_millis(&waited);
        let r: bool = should_start_election(self.state.role, elapsed_ms, timeout_ms);
        assert(r == election_is_due(self.spec_state().role, elapsed_ms, timeout_ms));
        r
    }

    /// The number of votes that make a majority of the cluster.
    pub fn majority(&self) -> (r: usize)
        ensures
            r == majority_of(self.spec_cluster().len()),
    {
        self.config.cluster_nodes.len() / 2 + 1
    }

    /// The state of a node that has just stood for election: a candidate
    /// of the next term, or the leader at once where the node is a majority
    /// of the cluster by itself.
    pub open spec fn standing(s: NodeView, cluster: Seq<u64>) -> NodeView {
        let candidate = s.as_candidate();
        if cluster.contains(candidate.node_id) && majority_of(cluster.len()) <= 1 {
            candidate.as_leader(cluster.len())
        } else {
            candidate
        }
    }

    /// The votes of a node that has just stood for election: its own, if it
    /// belongs to the cluster.
    pub open spec fn own_vote(s: NodeView, cluster: Seq<u64>) -> Seq<u64> {
        if cluster.contains(s.node_id) {
            seq![s.node_id]
        } else {
            Seq::<u64>::empty()
        }
    }

    /// Stands for election: the node enters the next term as candidate,
    /// votes for itself, and hands out the vote request to send to every
    /// other node. A node that is a majority by itself leads at once. The
    /// new term and the vote are in the image of the state file when the
    /// request is handed out. Where the terms are used up nothing changes;
    /// where the new state does not encode, the node is in it all the same
    /// and the image stays as it was.
    pub fn start_election(&mut self) -> (r: Result<VoteRequest, PyralogError>)
        requires
            old(self).wf(),
        ensures
            final(self).wf(),
            final(self).spec_cluster() == old(self).spec_cluster(),
            r is Ok <==> old(self).spec_state().current_term < u64::MAX && state_encodes(
                persistent_of(Self::standing(old(self).spec_state(), old(self).spec_cluster())),
            ),
            old(self).spec_state().current_term < u64::MAX ==> final(self).spec_state()
                == Self::standing(old(self).spec_state(), old(self).spec_cluster()) && final(self).spec_votes() == Self::own_vote(old(self).spec_state(), old(self).spec_cluster()),
            match r {
                Ok(req) => {
                    let candidate = old(self).spec_state().as_candidate();
                    &&& req == (VoteRequest {
                        term: candidate.current_term,
                        candidate_id: candidate.node_id,
                        last_log_index: candidate.log.len() as u64,
                        last_log_term: candidate.last_log_term(),
                    })
                    &&& final(self).saved()
                },
                Err(e) => {
                    &&& e is ConsensusError <==> old(self).spec_state().current_term == u64::MAX
                    &&& e is ConsensusError ==> final(self).spec_state() == old(self).spec_state()
                        && final(self).spec_votes() == old(self).spec_votes()
                    &&& !(e is ConsensusError) ==> e is SerializationError
                    &&& final(self).spec_image() == old(self).spec_image()
                },
            },
    {
        if self.state.persistent.current_term == u64::MAX {
            return Err(PyralogError::ConsensusError(String::from_str("Terms are exhausted")));
        }
        self.state.become_candidate();
        let mut votes: Vec<u64> = Vec::new();
        if contains_node(&self.config.cluster_nodes, self.state.node_id) {
            votes.push(self.state.node_id);
        }
        self.votes = votes;
        let req = VoteRequest {
            term: self.state.persistent.current_term,
            candidate_id: self.state.node_id,
            last_log_index: self.state.last_log_index(),
            last_log_term: self.state.last_log_term(),
        };
        if self.votes.len() >= self.majority() {
            self.state.become_leader(self.config.cluster_nodes.len());
        }
        match self.persist() {
            Ok(_) => Ok(req),
            Err(e) => Err(e),
        }
    }

    /// Takes in the answer of node `from` to this node's vote request and
    /// says whether the node leads afterwards. An answer from a higher
    /// term makes the node step down. A candidate counts a vote granted in
    /// its term by a node of the cluster, once per node, and takes the lead
    /// when the votes of a majority are in. A term that is adopted is in the
    /// image of the state file when the call returns; the call fails only
    /// where that state does not encode, and the image then stays as it
    /// was.
    pub fn handle_vote_response(&mut self, from: u64, response: VoteResponse) -> (r: Result<
        bool,
        PyralogError,
    >)
        requires
            old(self).wf(),
        ensures
            final(self).wf(),
            final(self).spec_cluster() == old(self).spec_cluster(),
            r is Ok <==> response.term <= old(self).spec_state().current_term || state_encodes(
                persistent_of(old(self).spec_state().as_follower(response.term)),
            ),
            match r {
                Ok(leads) => {
                    &&& leads == (final(self).spec_state().role is Leader)
                    &&& if response.term > old(self).spec_state().current_term {
                        final(self).saved()
                    } else {
                        final(self).spec_image() == old(self).spec_image()
                    }
                },
                Err(e) => e is SerializationError && final(self).spec_image() == old(
                    self,
                ).spec_image(),
            },
            ({
                let s = old(self).spec_state();
                let counts = s.role is Candidate && response.term == s.current_term
                    && response.vote_granted && old(self).spec_cluster().contains(from);
                if response.term > s.current_term {
                    final(self).spec_state() == s.as_follower(response.term) && final(self).spec_votes().len() == 0
                } else if counts {
                    &&& final(self).spec_votes() == with_vote(old(self).spec_votes(), from)
                    &&& final(self).spec_state() == if final(self).spec_votes().len()
                        >= majority_of(old(self).spec_cluster().len()) {
                        s.as_leader(old(self).spec_cluster().len())
                    } else {
                        s
                    }
                } else {
                    final(self).spec_state() == s && final(self).spec_votes() == old(
                        self,
                    ).spec_votes()
                }
            }),
    {
        if response.term > self.state.persistent.current_term {
            self.state.become_follower(response.term);
            self.votes = Vec::new();
            return match self.persist() {
                Ok(_) => Ok(false),
                Err(e) => Err(e),
            };
        }
        let counts: bool = matches!(self.state.role, NodeRole::Candidate) && response.term
            == self.state.persistent.current_term && response.vote_granted && contains_node(
            &self.config.cluster_nodes,
            from,
        );
        if counts {
            if !contains_node(&self.votes, from) {
                self.votes.push(from);
            }
            if self.votes.len() >= self.majority() {
                self.state.become_leader(self.config.cluster_nodes.len());
            }
        }
        Ok(matches!(self.state.role, NodeRole::Leader))
    }

    /// The append request for the node at position `peer` of the cluster
    /// list, if this node leads.
    pub fn append_request_for(&self, peer: usize) -> (r: Option<AppendEntriesRequest>)
        requires
            self.wf(),
        ensures
            match r {
                Some(req) => {
                    &&& self.spec_state().role is Leader
                    &&& self.spec_state().leader is Some
                    &&& peer < self.spec_state().leader->0.next_index.len()
                    &&& req@ == self.spec_state().append_request_for(peer as int)
                },
                None => !(self.spec_state().role is Leader) || self.spec_state().leader is None
                    || peer >= self.spec_state().leader->0.next_index.len(),
            },
    {
        self.state.append_request_for(peer)
    }

    /// The heartbeat to send to every other node, if this node leads.
    pub fn heartbeat_request(&self) -> (r: Option<AppendEntriesRequest>)
        ensures
            match r {
                Some(req) => self.spec_state().role is Leader && req@
                    == self.spec_state().heartbeat(),
                None => !(self.spec_state().role is Leader),
            },
    {
        self.state.heartbeat_request()
    }

    /// Takes in the answer of the node at position `peer` of the cluster
    /// list to an append request, and commits what can be committed. A
    /// term that is adopted is in the image of the state file when the call
    /// returns; the call fails only where that state does not encode, and
    /// the image then stays as it was.
    pub fn handle_append_response(&mut self, peer: usize, response: AppendEntriesResponse) -> (r:
        Result<(), PyralogError>)
        requires
            old(self).wf(),
        ensures
            final(self).wf(),
            final(self).spec_cluster() == old(self).spec_cluster(),
            final(self).spec_state() == old(self).spec_state().after_append_response(
                peer as int,
                response,
            ),
            r is Ok <==> response.term <= old(self).spec_state().current_term || state_encodes(
                persistent_of(old(self).spec_state().after_append_response(peer as int, response)),
            ),
            match r {
                Ok(_) => if response.term > old(self).spec_state().current_term {
                    final(self).saved()
                } else {
                    final(self).spec_image() == old(self).spec_image()
                },
                Err(e) => e is SerializationError && final(self).spec_image() == old(
                    self,
                ).spec_image(),
            },
    {
        let newer: bool = response.term > self.state.persistent.current_term;
        self.state.record_append_response(peer, &response);
        if newer {
            self.votes = Vec::new();
            return self.persist();
        }
        Ok(())
    }
}

} // verus!
