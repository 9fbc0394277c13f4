//! What a leader does: it tracks how far each node's log reaches, builds
//! the append requests that bring the nodes up to date, and commits what a
//! majority stores.

use vstd::prelude::*;
use crate::consensus::rpc::{AppendEntriesRequest, AppendEntriesResponse, AppendEntriesView};
use crate::consensus::state::{
    entries_view, LeaderState, LeaderView, LogEntry, NodeRole, NodeState, NodeView,
};
use crate::consensus::vote::majority_of;

verus! {

/// How many of the first `upto` nodes are known to store the entry with
/// index `n`.
pub open spec fn count_at_least(match_index: Seq<u64>, n: int, upto: int) -> int
    decreases upto,
{
    if upto <= 0 || upto > match_index.len() {
        0
    } else {
        count_at_least(match_index, n, upto - 1) + if match_index[upto - 1] >= n {
            1int
        } else {
            0int
        }
    }
}

impl NodeView {
    /// The entry with index `n` can be committed: it lies behind the commit
    /// index, it was written in the leader's own term, and a majority of
    /// the cluster is known to store it.
    pub open spec fn committable(self, n: int) -> bool {
        &&& self.leader is Some
        &&& self.commit_index < n <= self.log.len()
        &&& self.log[n - 1].term == self.current_term
        &&& count_at_least(
            self.leader->0.match_index,
            n,
            self.leader->0.match_index.len() as int,
        ) >= majority_of(self.leader->0.match_index.len())
    }

    /// The highest index at or below `upto` that can be committed, or the
    /// commit index if there is none.
    pub open spec fn best_commit(self, upto: int) -> int
        decreases upto,
    {
        if upto <= self.commit_index {
            self.commit_index as int
        } else if self.committable(upto) {
            upto
        } else {
            self.best_commit(upto - 1)
        }
    }

    /// The state after the leader has committed what it can.
    pub open spec fn after_advance(self) -> NodeView {
        if self.role is Leader && self.leader is Some {
            NodeView { commit_index: self.best_commit(self.log.len() as int) as u64, ..self }
        } else {
            self
        }
    }

    /// The index that follows `m`, or the largest index there is.
    pub open spec fn index_after(m: u64) -> u64 {
        if m == u64::MAX {
            u64::MAX
        } else {
            (m + 1) as u64
        }
    }

    /// The index before `n`, but not below one.
    pub open spec fn index_before(n: u64) -> u64 {
        if n <= 1 {
            1
        } else {
            (n - 1) as u64
        }
    }

    /// The state after the node at position `p` of the cluster has answered
    /// an append request. A higher term in the answer makes the node step
    /// down. A leader records a success and commits what it can; after a
    /// refusal it steps one entry back for that node.
    pub open spec fn after_append_response(self, p: int, resp: AppendEntriesResponse) -> NodeView {
        if resp.term > self.current_term {
            self.as_follower(resp.term)
        } else if !(self.role is Leader) || self.leader is None || p < 0 || p
            >= self.leader->0.next_index.len() || p >= self.leader->0.match_index.len() {
            self
        } else if resp.success && resp.match_index is Some {
            let m = resp.match_index->0;
            (NodeView {
                leader: Some(
                    LeaderView {
                        next_index: self.leader->0.next_index.update(p, Self::index_after(m)),
                        match_index: self.leader->0.match_index.update(p, m),
                    },
                ),
                ..self
            }).after_advance()
        } else {
            NodeView {
                leader: Some(
                    LeaderView {
                        next_index: self.leader->0.next_index.update(
                            p,
                            Self::index_before(self.leader->0.next_index[p]),
                        ),
                        match_index: self.leader->0.match_index,
                    },
                ),
                ..self
            }
        }
    }

    /// The index of the first entry that the node at position `p` is sent
    /// next: what the leader has noted for it, kept within the log.
    pub open spec fn next_for(self, p: int) -> int {
        let n = self.leader->0.next_index[p];
        if n < 1 {
            1
        } else if n > self.log.len() + 1 {
            self.log.len() as int + 1
        } else {
            n as int
        }
    }

    /// The append request that brings the node at position `p` up to date:
    /// it builds on the entry before the first one the node lacks and
    /// carries every entry from there on.
    pub open spec fn append_request_for(self, p: int) -> AppendEntriesView {
        let next = self.next_for(p);
        AppendEntriesView {
            term: self.current_term,
            leader_id: self.node_id,
            prev_log_index: (next - 1) as u64,
            prev_log_term: if next == 1 {
                0
            } else {
                self.log[next - 2].term
            },
            entries: self.log.subrange(next - 1, self.log.len() as int),
            leader_commit: self.commit_index,
        }
    }

    /// The heartbeat of a leader: an append request without entries that
    /// builds on the leader's last entry.
    pub open spec fn heartbeat(self) -> AppendEntriesView {
        AppendEntriesView {
            term: self.current_term,
            leader_id: self.node_id,
            prev_log_index: self.log.len() as u64,
            prev_log_term: self.last_log_term(),
            entries: Seq::empty(),
            leader_commit: self.commit_index,
        }
    }
}

/// Committing never moves the commit index back, and where it moves it,
/// the new index can be committed and no higher index can.
pub proof fn lemma_best_commit(s: NodeView, upto: int)
    requires
        upto <= s.log.len(),
    ensures
        s.commit_index <= s.best_commit(upto),
        s.best_commit(upto) <= upto || s.best_commit(upto) == s.commit_index,
        s.best_commit(upto) > s.commit_index ==> s.committable(s.best_commit(upto)),
        forall|n: int| s.best_commit(upto) < n <= upto ==> !s.committable(n),
    decreases upto,
{
    if upto > s.commit_index && !s.committable(upto) {
        lemma_best_commit(s, upto - 1);
    }
}

/// The requests a leader builds are numbered as they must be, so that a
/// follower never finds them malformed.
pub proof fn lemma_request_well_formed(s: NodeView, p: int)
    requires
        s.wf(),
        s.leader is Some,
        0 <= p < s.leader->0.next_index.len(),
        s.log.len() < u64::MAX,
    ensures
        crate::consensus::append::request_well_formed(s.append_request_for(p)),
        crate::consensus::append::request_well_formed(s.heartbeat()),
{
}

impl NodeState {
    /// How many nodes are known to store the entry with index `n`.
    fn count_matching(match_index: &Vec<u64>, n: u64) -> (c: usize)
        ensures
            c == count_at_least(match_index@, n as int, match_index@.len() as int),
    {
        let len: usize = match_index.len();
        let mut c: usize = 0;
        let mut i: usize = 0;
        while i < len
            invariant
                i <= len,
                len == match_index@.len(),
                c <= i,
                c == count_at_least(match_index@, n as int, i as int),
            decreases len - i,
        {
            if match_index[i] >= n {
                c += 1;
            }
            i += 1;
        }
        c
    }

    /// Commits what a leader can commit: the commit index moves to the
    /// highest index that lies in the leader's own term and that a majority
    /// of the cluster is known to store. Any other node is left as it is.
    pub fn advance_commit_index(&mut self)
        requires
            old(self).persistent.log@.len() <= u64::MAX,
        ensures
            final(self)@ == old(self)@.after_advance(),
    {
        if !matches!(self.role, NodeRole::Leader) {
            return ;
        }
        let ghost s0 = self@;
        match &self.leader {
            None => {},
            Some(leader) => {
                let majority: usize = leader.match_index.len() / 2 + 1;
                let mut n: usize = self.persistent.log.len();
                let floor: u64 = self.volatile.commit_index;
                let mut best: u64 = floor;
                let mut found: bool = false;
                while n as u64 > floor && !found
                    invariant
                        n <= self.persistent.log@.len(),
                        self.persistent.log@.len() <= u64::MAX,
                        s0 == self@,
                        floor == s0.commit_index,
                        self.leader == Some(*leader),
                        majority == majority_of(leader.match_index@.len()),
                        !found ==> best == floor && s0.best_commit(n as int) == s0.best_commit(
                            s0.log.len() as int,
                        ),
                        found ==> best == s0.best_commit(s0.log.len() as int),
                    decreases n + (if found { 0int } else { 1int }),
                {
                    let c: usize = Self::count_matching(&leader.match_index, n as u64);
                    if self.persistent.log[n - 1].term == self.persistent.current_term && c
                        >= majority {
                        best = n as u64;
                        found = true;
                    } else {
                        n -= 1;
                    }
                }
                self.volatile.commit_index = best;
            },
        }
    }

    /// Takes in the answer of the node at position `peer` of the cluster
    /// to an append request.
    pub fn record_append_response(&mut self, peer: usize, response: &AppendEntriesResponse)
        requires
            old(self).persistent.log@.len() <= u64::MAX,
        ensures
            final(self)@ == old(self)@.after_append_response(peer as int, *response),
    {
        if response.term > self.persistent.current_term {
            self.become_follower(response.term);
            return ;
        }
        if !matches!(self.role, NodeRole::Leader) {
            return ;
        }
        let mut leader: LeaderState = match self.leader.take() {
            Some(l) => l,
            None => {
                return ;
            },
        };
        if peer >= leader.next_index.len() || peer >= leader.match_index.len() {
            self.leader = Some(leader);
            return ;
        }
        match (response.success, response.match_index) {
            (true, Some(m)) => {
                let next: u64 = if m == u64::MAX {
                    u64::MAX
                } else {
                    m + 1
                };
                leader.next_index.set(peer, next);
                leader.match_index.set(peer, m);
                self.leader = Some(leader);
                self.advance_commit_index();
            },
            _ => {
                let old_next: u64 = leader.next_index[peer];
                let next: u64 = if old_next <= 1 {
                    1
                } else {
                    old_next - 1
                };
                leader.next_index.set(peer, next);
                self.leader = Some(leader);
            },
        }
    }

    /// The append request for the node at position `peer` of the cluster,
    /// if this node leads and the cluster has such a node.
    pub fn append_request_for(&self, peer: usize) -> (r: Option<AppendEntriesRequest>)
        requires
            self.persistent.log@.len() < u64::MAX,
        ensures
            match r {
                Some(req) => {
                    &&& self.role is Leader
                    &&& self.leader is Some
                    &&& peer < self@.leader->0.next_index.len()
                    &&& req@ == self@.append_request_for(peer as int)
                },
                None => !(self.role is Leader) || self.leader is None || peer
                    >= self@.leader->0.next_index.len(),
            },
    {
        if !matches!(self.role, NodeRole::Leader) {
            return None;
        }
        match &self.leader {
            None => None,
            Some(leader) => {
                if peer >= leader.next_index.len() {
                    return None;
                }
                let len: usize = self.persistent.log.len();
                let noted: u64 = leader.next_index[peer];
                let next: u64 = if noted < 1 {
                    1
                } else if noted > len as u64 {
                    len as u64 + 1
                } else {
                    noted
                };
                let prev_term: u64 = if next == 1 {
                    0
                } else {
                    self.persistent.log[(next - 2) as usize].term
                };
                let mut entries: Vec<LogEntry> = Vec::new();
                let mut i: usize = (next - 1) as usize;
                while i < len
                    invariant
                        1 <= next <= len + 1,
                        next - 1 <= i <= len,
                        len == self.persistent.log@.len(),
                        entries_view(entries@) =~= entries_view(self.persistent.log@).subrange(
                            next - 1,
                            i as int,
                        ),
                    decreases len - i,
                {
                    let e: LogEntry = self.persistent.log[i].duplicate();
                    let ghost before = entries@;
                    entries.push(e);
                    assert(entries_view(entries@) =~= entries_view(before).push(e@));
                    i += 1;
                }
                Some(
                    AppendEntriesRequest {
                        term: self.persistent.current_term,
                        leader_id: self.node_id,
                        prev_log_index: next - 1,
                        prev_log_term: prev_term,
                        entries,
                        leader_commit: self.volatile.commit_index,
                    },
                )
            },
        }
    }

    /// The heartbeat of this node, if it leads.
    pub fn heartbeat_request(&self) -> (r: Option<AppendEntriesRequest>)
        ensures
            match r {
                Some(req) => self.role is Leader && req@ == self@.heartbeat(),
                None => !(self.role is Leader),
            },
    {
        if !matches!(self.role, NodeRole::Leader) {
            return None;
        }
        let req = AppendEntriesRequest {
            term: self.persistent.current_term,
            leader_id: self.node_id,
            prev_log_index: self.last_log_index(),
            prev_log_term: self.last_log_term(),
            entries: Vec::new(),
            leader_commit: self.volatile.commit_index,
        };
        assert(req@.entries =~= Seq::empty());
        Some(req)
    }
}

} // verus!
