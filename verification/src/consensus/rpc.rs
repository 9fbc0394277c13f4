//! The two Raft requests and their answers.

use vstd::prelude::*;
use crate::consensus::state::{entries_view, LogEntry, LogEntryView};

verus! {

/// A leader's request to store entries, or its heartbeat when it has none.
#[derive(Debug, Clone)]
pub struct AppendEntriesRequest {
    /// The leader's term.
    pub term: u64,
    /// The leader, so that followers can redirect clients.
    pub leader_id: u64,
    /// The index of the entry just before the new ones.
    pub prev_log_index: u64,
    /// The term of that entry.
    pub prev_log_term: u64,
    /// The entries to store, empty for a heartbeat.
    pub entries: Vec<LogEntry>,
    /// The leader's commit index.
    pub leader_commit: u64,
}

/// An append request as a mathematical value.
pub struct AppendEntriesView {
    pub term: u64,
    pub leader_id: u64,
    pub prev_log_index: u64,
    pub prev_log_term: u64,
    pub entries: Seq<LogEntryView>,
    pub leader_commit: u64,
}

impl View for AppendEntriesRequest {
    type V = AppendEntriesView;

    open spec fn view(&self) -> AppendEntriesView {
        AppendEntriesView {
            term: self.term,
            leader_id: self.leader_id,
            prev_log_index: self.prev_log_index,
            prev_log_term: self.prev_log_term,
            entries: entries_view(self.entries@),
            leader_commit: self.leader_commit,
        }
    }
}

/// A follower's answer to an append request.
#[derive(Debug, Clone, Copy, PartialEq, Eq, Structural)]
pub struct AppendEntriesResponse {
    /// The follower's term, for the leader to update itself.
    pub term: u64,
    /// Whether the follower held the entry the request built on.
    pub success: bool,
    /// The follower's last index after a successful append.
    pub match_index: Option<u64>,
}

/// A candidate's request for a vote.
#[derive(Debug, Clone, Copy, PartialEq, Eq, Structural)]
pub struct VoteRequest {
    /// The candidate's term.
    pub term: u64,
    /// The candidate asking.
    pub candidate_id: u64,
    /// The index of the candidate's last entry.
    pub last_log_index: u64,
    /// The term of the candidate's last entry.
    pub last_log_term: u64,
}

/// A node's answer to a vote request.
#[derive(Debug, Clone, Copy, PartialEq, Eq, Structural)]
pub struct VoteResponse {
    /// The voter's term, for the candidate to update itself.
    pub term: u64,
    /// Whether the candidate got the vote.
    pub vote_granted: bool,
}

} // verus!
