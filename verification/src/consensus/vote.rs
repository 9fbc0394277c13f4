//! How a node answers a vote request, and why a term has one leader.

use vstd::prelude::*;
use crate::consensus::rpc::{VoteRequest, VoteResponse};
use crate::consensus::state::{NodeState, NodeView};

verus! {

/// The smallest number of nodes that is more than half of `cluster_size`.
pub open spec fn majority_of(cluster_size: nat) -> nat {
    cluster_size / 2 + 1
}

impl NodeView {
    /// The candidate's log is at least as up to date as this node's: its
    /// last term is higher, or equal with an index that is not lower.
    pub open spec fn log_up_to_date(self, req: VoteRequest) -> bool {
        req.last_log_term > self.last_log_term() || (req.last_log_term == self.last_log_term()
            && req.last_log_index >= self.last_log_index())
    }

    /// Whether the node gives its vote: the candidate's term is not behind,
    /// the node has no vote out in that term but to this candidate, and the
    /// candidate's log is up to date.
    pub open spec fn grants_vote(self, req: VoteRequest) -> bool {
        &&& req.term >= self.current_term
        &&& self.with_term_of(req.term).voted_for is None || self.with_term_of(
            req.term,
        ).voted_for == Some(req.candidate_id)
        &&& self.log_up_to_date(req)
    }

    /// The state after a vote request.
    pub open spec fn after_vote(self, req: VoteRequest) -> NodeView {
        if req.term < self.current_term {
            self
        } else if self.grants_vote(req) {
            NodeView { voted_for: Some(req.candidate_id), ..self.with_term_of(req.term) }
        } else {
            self.with_term_of(req.term)
        }
    }

    /// The answer to a vote request.
    pub open spec fn vote_reply(self, req: VoteRequest) -> VoteResponse {
        VoteResponse {
            term: self.after_vote(req).current_term,
            vote_granted: self.grants_vote(req),
        }
    }
}

/// A node votes once per term: a vote request never lowers the term, a vote
/// that is out stays with its candidate for as long as the term lasts, and a
/// vote that is granted is recorded for the candidate that asked.
pub proof fn lemma_one_vote_per_term(s: NodeView, req: VoteRequest)
    ensures
        s.after_vote(req).current_term >= s.current_term,
        s.after_vote(req).current_term == s.current_term && s.voted_for is Some
            ==> s.after_vote(req).voted_for == s.voted_for,
        s.grants_vote(req) ==> s.after_vote(req).voted_for == Some(req.candidate_id)
            && s.after_vote(req).current_term == req.term,
{
}

/// The voters of `cluster` that `votes` records for `candidate`.
pub open spec fn voters_for(cluster: Set<u64>, votes: Map<u64, u64>, candidate: u64) -> Set<u64> {
    Set::new(|n: u64| cluster.contains(n) && votes.contains_key(n) && votes[n] == candidate)
}

/// A term has at most one leader. Within one term every node's vote goes to
/// one candidate, so the votes of a term form a map from voter to candidate;
/// two candidates that each hold the votes of a majority of the cluster are
/// the same candidate, because two majorities share a node.
pub proof fn lemma_at_most_one_leader_per_term(
    cluster: Set<u64>,
    votes: Map<u64, u64>,
    a: u64,
    b: u64,
)
    requires
        cluster.finite(),
        voters_for(cluster, votes, a).len() >= majority_of(cluster.len()),
        voters_for(cluster, votes, b).len() >= majority_of(cluster.len()),
    ensures
        a == b,
{
    let va = voters_for(cluster, votes, a);
    let vb = voters_for(cluster, votes, b);
    vstd::set_lib::lemma_len_subset(va, cluster);
    vstd::set_lib::lemma_len_subset(vb, cluster);
    if a != b {
        vstd::set_lib::lemma_set_disjoint_lens(va, vb);
        vstd::set_lib::lemma_len_subset(va.union(vb), cluster);
    }
}

impl NodeState {
    /// Answers a candidate's vote request and records the vote if it is
    /// given. A request from an older term is refused; a newer term is
    /// adopted first, which frees the node's vote.
    pub fn apply_vote_request(&mut self, request: &VoteRequest) -> (r: VoteResponse)
        ensures
            final(self)@ == old(self)@.after_vote(*request),
            r == old(self)@.vote_reply(*request),
    {
        if request.term < self.persistent.current_term {
            return VoteResponse { term: self.persistent.current_term, vote_granted: false };
        }
        let my_last_term: u64 = self.last_log_term();
        let my_last_index: u64 = self.last_log_index();
        if request.term > self.persistent.current_term {
            self.become_follower(request.term);
        }
        let can_vote: bool = match self.persistent.voted_for {
            None => true,
            Some(c) => c == request.candidate_id,
        };
        let log_ok: bool = request.last_log_term > my_last_term || (request.last_log_term
            == my_last_term && request.last_log_index >= my_last_index);
        if can_vote && log_ok {
            self.persistent.voted_for = Some(request.candidate_id);
            VoteResponse { term: self.persistent.current_term, vote_granted: true }
        } else {
            VoteResponse { term: self.persistent.current_term, vote_granted: false }
        }
    }
}

} // verus!
