//! How a node answers a leader's append request.

use vstd::prelude::*;
use crate::base::error::PyralogError;
use crate::consensus::rpc::{AppendEntriesRequest, AppendEntriesResponse, AppendEntriesView};
use crate::consensus::state::{
    entries_view, indices_contiguous, LogEntryView, NodeState, NodeView,
};

verus! {

/// The entries of a request are numbered one after the other, starting just
/// behind the entry the request builds on.
pub open spec fn request_well_formed(req: AppendEntriesView) -> bool {
    forall|j: int|
        0 <= j < req.entries.len() ==> (#[trigger] req.entries[j]).index == req.prev_log_index + 1
            + j
}

/// The log holds the entry the request builds on, with the term the leader
/// names. A request that builds on index zero builds on the empty prefix.
pub open spec fn prev_entry_matches(log: Seq<LogEntryView>, req: AppendEntriesView) -> bool {
    req.prev_log_index == 0 || (req.prev_log_index <= log.len() && log[req.prev_log_index
        - 1].term == req.prev_log_term)
}

/// The position in `entries` of the first entry, at or after `j`, that the
/// log lacks or holds with another term; `entries.len()` if there is none.
/// Entry `j` of the request belongs at position `prev + j` of the log.
pub open spec fn first_new_entry(
    log: Seq<LogEntryView>,
    prev: int,
    entries: Seq<LogEntryView>,
    j: int,
) -> int
    decreases entries.len() - j,
{
    if 0 <= j < entries.len() && 0 <= prev + j < log.len() && log[prev + j].term
        == entries[j].term {
        first_new_entry(log, prev, entries, j + 1)
    } else {
        j
    }
}

/// The log after taking in the entries of a request whose previous entry
/// matches: the log is cut at the first entry that conflicts and the rest of
/// the request is appended; where nothing is new the log stays as it is.
pub open spec fn merged_log(log: Seq<LogEntryView>, req: AppendEntriesView) -> Seq<LogEntryView> {
    let k = first_new_entry(log, req.prev_log_index as int, req.entries, 0);
    if k >= req.entries.len() {
        log
    } else {
        log.subrange(0, req.prev_log_index + k) + req.entries.subrange(k, req.entries.len() as int)
    }
}

/// The commit index that a request offers: the leader's, but not beyond
/// the last entry the request vouches for.
pub open spec fn commit_offered(req: AppendEntriesView) -> int {
    let last_new = req.prev_log_index + req.entries.len();
    if req.leader_commit <= last_new {
        req.leader_commit as int
    } else {
        last_new
    }
}

/// The commit index after a request has been taken in: it moves up to the
/// index the request offers, and never down.
pub open spec fn commit_after(commit_index: u64, req: AppendEntriesView) -> int {
    if commit_offered(req) > commit_index {
        commit_offered(req)
    } else {
        commit_index as int
    }
}

/// The four ways an append request can end.
pub enum AppendVerdict {
    /// The leader's term is behind: refused, nothing changes.
    Stale,
    /// The entries are not numbered as they must be: an error, nothing changes.
    Malformed,
    /// The entry the request builds on is missing or has another term:
    /// refused, only the term is adopted.
    PrevMismatch,
    /// The entries are taken in.
    Accepted,
}

impl NodeView {
    /// The state after adopting the term of a message: a higher term turns
    /// the node into a follower without a vote.
    pub open spec fn with_term_of(self, term: u64) -> NodeView {
        if term > self.current_term {
            self.as_follower(term)
        } else {
            self
        }
    }

    /// How the node rules on an append request.
    pub open spec fn append_verdict(self, req: AppendEntriesView) -> AppendVerdict {
        if req.term < self.current_term {
            AppendVerdict::Stale
        } else if !request_well_formed(req) {
            AppendVerdict::Malformed
        } else if !prev_entry_matches(self.log, req) {
            AppendVerdict::PrevMismatch
        } else {
            AppendVerdict::Accepted
        }
    }

    /// The state after an append request.
    pub open spec fn after_append(self, req: AppendEntriesView) -> NodeView {
        match self.append_verdict(req) {
            AppendVerdict::Stale => self,
            AppendVerdict::Malformed => self,
            AppendVerdict::PrevMismatch => self.with_term_of(req.term),
            AppendVerdict::Accepted => NodeView {
                log: merged_log(self.log, req),
                commit_index: commit_after(self.commit_index, req) as u64,
                ..self.with_term_of(req.term)
            },
        }
    }

    /// The answer to an append request that is not malformed.
    pub open spec fn append_reply(self, req: AppendEntriesView) -> AppendEntriesResponse {
        match self.append_verdict(req) {
            AppendVerdict::Accepted => AppendEntriesResponse {
                term: req.term,
                success: true,
                match_index: Some(merged_log(self.log, req).len() as u64),
            },
            AppendVerdict::PrevMismatch => AppendEntriesResponse {
                term: req.term,
                success: false,
                match_index: None,
            },
            _ => AppendEntriesResponse { term: self.current_term, success: false, match_index: None },
        }
    }
}

/// The merged log keeps every entry numbered by its slot.
pub proof fn lemma_merged_log_contiguous(log: Seq<LogEntryView>, req: AppendEntriesView)
    requires
        indices_contiguous(log),
        request_well_formed(req),
        prev_entry_matches(log, req),
    ensures
        indices_contiguous(merged_log(log, req)),
        merged_log(log, req).len() >= req.prev_log_index + req.entries.len(),
{
    let prev = req.prev_log_index as int;
    lemma_first_new_entry_bounds(log, prev, req.entries, 0);
}

/// Where the scan for the first new entry stops: between its start and the
/// end of the request, and never beyond the end of the log.
pub proof fn lemma_first_new_entry_bounds(
    log: Seq<LogEntryView>,
    prev: int,
    entries: Seq<LogEntryView>,
    j: int,
)
    requires
        0 <= j <= entries.len(),
        0 <= prev,
        prev + j <= log.len(),
    ensures
        j <= first_new_entry(log, prev, entries, j) <= entries.len(),
        prev + first_new_entry(log, prev, entries, j) <= log.len(),
        forall|i: int|
            j <= i < first_new_entry(log, prev, entries, j) ==> (#[trigger] log[prev + i]).term
                == entries[i].term,
    decreases entries.len() - j,
{
    if 0 <= j < entries.len() && 0 <= prev + j < log.len() && log[prev + j].term
        == entries[j].term {
        lemma_first_new_entry_bounds(log, prev, entries, j + 1);
    }
}

/// Entries up to the commit index survive an append request that does not
/// contradict them: where every incoming entry numbered at or below the
/// commit index carries the term the log already holds there, the log's
/// entries up to the commit index are the same before and after.
pub proof fn lemma_committed_entries_survive(s: NodeView, req: AppendEntriesView, i: int)
    requires
        s.wf(),
        s.commit_index <= s.log.len(),
        1 <= i <= s.commit_index,
        forall|j: int|
            0 <= j < req.entries.len() && req.prev_log_index + 1 + j <= s.commit_index ==> (
            #[trigger] req.entries[j]).term == s.log[req.prev_log_index + j].term,
    ensures
        i <= s.after_append(req).log.len(),
        s.after_append(req).log[i - 1] == s.log[i - 1],
{
    if s.append_verdict(req) is Accepted {
        let prev = req.prev_log_index as int;
        lemma_first_new_entry_bounds(s.log, prev, req.entries, 0);
        let k = first_new_entry(s.log, prev, req.entries, 0);
        if k < req.entries.len() {
            // The scan stopped at k, so entry k is new or conflicts, and by
            // the premise it is numbered above the commit index.
            lemma_first_new_entry_stops(s.log, prev, req.entries, 0);
        }
    }
}

/// At the place where the scan stops short of the request's end, the log
/// ends or holds another term.
pub proof fn lemma_first_new_entry_stops(
    log: Seq<LogEntryView>,
    prev: int,
    entries: Seq<LogEntryView>,
    j: int,
)
    requires
        0 <= j <= entries.len(),
        0 <= prev,
    ensures
        ({
            let k = first_new_entry(log, prev, entries, j);
            k < entries.len() ==> prev + k >= log.len() || log[prev + k].term != entries[k].term
        }),
    decreases entries.len() - j,
{
    if 0 <= j < entries.len() && 0 <= prev + j < log.len() && log[prev + j].term
        == entries[j].term {
        lemma_first_new_entry_stops(log, prev, entries, j + 1);
    }
}

/// An append request never lowers the commit index, whatever the request
/// holds and however it ends.
pub proof fn lemma_commit_index_never_falls(s: NodeView, req: AppendEntriesView)
    ensures
        s.after_append(req).commit_index >= s.commit_index,
{
}

/// An append request never lowers a node's term, and a node that keeps its
/// term keeps its vote.
pub proof fn lemma_append_keeps_term_and_vote(s: NodeView, req: AppendEntriesView)
    ensures
        s.after_append(req).current_term >= s.current_term,
        s.after_append(req).current_term == s.current_term ==> s.after_append(req).voted_for
            == s.voted_for,
{
}

impl NodeState {
    /// Whether the entries of `request` are numbered one after the other
    /// from `prev_log_index + 1`.
    fn entries_numbered(request: &AppendEntriesRequest) -> (r: bool)
        ensures
            r == request_well_formed(request@),
    {
        let n: usize = request.entries.len();
        let mut j: usize = 0;
        while j < n
            invariant
                j <= n,
                n == request.entries@.len(),
                forall|i: int|
                    0 <= i < j ==> (#[trigger] request@.entries[i]).index == request.prev_log_index
                        + 1 + i,
            decreases n - j,
        {
            let want: u128 = request.prev_log_index as u128 + 1 + j as u128;
            if request.entries[j].index as u128 != want {
                assert(request@.entries[j as int].index != request.prev_log_index + 1 + j);
                return false;
            }
            j += 1;
        }
        true
    }

    /// Answers a leader's append request and updates the node accordingly.
    ///
    /// A request from an older term is refused. A request whose entries are
    /// not numbered consecutively is an error and changes nothing. Otherwise
    /// a newer term is adopted; the request is refused when the log lacks the
    /// entry it builds on, and else its entries are merged into the log and
    /// the commit index follows the leader's upwards; it never falls.
    pub fn apply_append_entries(&mut self, request: &AppendEntriesRequest) -> (r: Result<
        AppendEntriesResponse,
        PyralogError,
    >)
        requires
            old(self)@.wf(),
        ensures
            final(self)@.wf(),
            final(self)@ == old(self)@.after_append(request@),
            r is Err <==> old(self)@.append_verdict(request@) is Malformed,
            r matches Ok(resp) ==> resp == old(self)@.append_reply(request@),
            r matches Err(e) ==> e is InvalidRequest,
    {
        let ghost s0 = self@;
        let ghost req = request@;
        if request.term < self.persistent.current_term {
            return Ok(
                AppendEntriesResponse {
                    term: self.persistent.current_term,
                    success: false,
                    match_index: None,
                },
            );
        }
        if !Self::entries_numbered(request) {
            return Err(PyralogError::InvalidRequest(malformed_entries_text()));
        }
        if request.term > self.persistent.current_term {
            self.become_follower(request.term);
        }
        let len: usize = self.persistent.log.len();
        if request.prev_log_index > 0 {
            if request.prev_log_index > len as u64 || self.persistent.log[(request.prev_log_index
                - 1) as usize].term != request.prev_log_term {
                return Ok(
                    AppendEntriesResponse {
                        term: self.persistent.current_term,
                        success: false,
                        match_index: None,
                    },
                );
            }
        }
        let prev: usize = request.prev_log_index as usize;
        let n: usize = request.entries.len();
        let ghost s1 = self@;
        let mut j: usize = 0;
        while j < n && prev + j < len && self.persistent.log[prev + j].term
            == request.entries[j].term
            invariant
                j <= n,
                n == request.entries@.len(),
                len == self.persistent.log@.len(),
                prev + j <= len,
                prev == req.prev_log_index,
                req == request@,
                entries_view(self.persistent.log@) == s0.log,
                first_new_entry(s0.log, prev as int, req.entries, j as int) == first_new_entry(
                    s0.log,
                    prev as int,
                    req.entries,
                    0,
                ),
            decreases n - j,
        {
            j += 1;
        }
        if j < n {
            self.persistent.log.truncate(prev + j);
            let mut i: usize = j;
            while i < n
                invariant
                    j <= i <= n,
                    n == request.entries@.len(),
                    req == request@,
                    prev + j <= s0.log.len(),
                    self@ == (NodeView { log: entries_view(self.persistent.log@), ..s1 }),
                    entries_view(self.persistent.log@) =~= s0.log.subrange(0, prev + j)
                        + req.entries.subrange(j as int, i as int),
                decreases n - i,
            {
                let e = request.entries[i].duplicate();
                let ghost before = self.persistent.log@;
                self.persistent.log.push(e);
                assert(entries_view(self.persistent.log@) =~= entries_view(before).push(e@));
                i += 1;
            }
        }
        let last_new: u128 = request.prev_log_index as u128 + n as u128;
        let offered: u64 = if request.leader_commit as u128 <= last_new {
            request.leader_commit
        } else {
            last_new as u64
        };
        if offered > self.volatile.commit_index {
            self.volatile.commit_index = offered;
        }
        let last: u64 = self.persistent.log.len() as u64;
        Ok(
            AppendEntriesResponse {
                term: self.persistent.current_term,
                success: true,
                match_index: Some(last),
            },
        )
    }
}

/// The message of the error that a misnumbered request gets.
fn malformed_entries_text() -> (r: String)
    ensures
        r@ == "Entries are not numbered consecutively"@,
{
    String::from_str("Entries are not numbered consecutively")
}

} // verus!
