use bytes::Bytes;
use pyralog::consensus::election::{should_start_election, HEARTBEAT_INTERVAL_MS};
use pyralog::{
    heartbeat_interval, AppendEntriesRequest, AppendEntriesResponse, ElectionTimeoutConfig,
    LeaderState, LogEntry, LogOffset, NodeRole, NodeState, PersistentState, PyralogError,
    RaftConfig, RaftLog, RaftNode, VoteRequest, VoteResponse,
};

fn entry(term: u64, index: u64) -> LogEntry {
    LogEntry::new(term, index, vec![index as u8])
}

fn follower_with(terms: &[u64], current_term: u64) -> NodeState {
    let mut s = NodeState::new(1);
    s.persistent.current_term = current_term;
    for (i, t) in terms.iter().enumerate() {
        s.persistent.log.push(entry(*t, i as u64 + 1));
    }
    s
}

fn request(term: u64, prev: u64, prev_term: u64, entries: Vec<LogEntry>, commit: u64) -> AppendEntriesRequest {
    AppendEntriesRequest { term, leader_id: 9, prev_log_index: prev, prev_log_term: prev_term, entries, leader_commit: commit }
}

fn terms(s: &NodeState) -> Vec<u64> {
    s.persistent.log.iter().map(|e| e.term).collect()
}

fn config(node_id: u64, cluster: Vec<u64>) -> RaftConfig {
    RaftConfig { node_id, cluster_nodes: cluster, data_dir: "/data/raft".to_string(), election_timeout: ElectionTimeoutConfig::default() }
}

#[test]
fn state_roles() {
    let mut s = NodeState::new(4);
    assert_eq!((s.role, s.persistent.current_term, s.persistent.voted_for), (NodeRole::Follower, 0, None));
    assert_eq!((s.last_log_index(), s.last_log_term()), (0, 0));
    s.become_candidate();
    assert_eq!((s.role, s.persistent.current_term, s.persistent.voted_for), (NodeRole::Candidate, 1, Some(4)));
    s.persistent.log.push(entry(1, 1));
    s.persistent.log.push(entry(1, 2));
    assert_eq!((s.last_log_index(), s.last_log_term()), (2, 1));
    s.become_leader(3);
    assert_eq!(s.role, NodeRole::Leader);
    let l = s.leader.as_ref().unwrap();
    assert_eq!(l.next_index, vec![3, 3, 3]);
    assert_eq!(l.match_index, vec![0, 0, 0]);
    s.become_follower(7);
    assert_eq!((s.role, s.persistent.current_term, s.persistent.voted_for), (NodeRole::Follower, 7, None));
    assert!(s.leader.is_none());
    let l = LeaderState::new(2, 9);
    assert_eq!((l.next_index, l.match_index), (vec![10, 10], vec![0, 0]));
    let p = PersistentState::default();
    assert_eq!((p.current_term, p.voted_for, p.log.len()), (0, None, 0));
}

#[test]
fn append_entries_from_an_old_term_is_refused() {
    let mut s = follower_with(&[1, 1], 3);
    let r = s.apply_append_entries(&request(2, 2, 1, vec![entry(2, 3)], 2)).unwrap();
    assert_eq!(r, AppendEntriesResponse { term: 3, success: false, match_index: None });
    assert_eq!(terms(&s), vec![1, 1]);
    assert_eq!(s.volatile.commit_index, 0);
}

#[test]
fn append_entries_needs_the_previous_entry() {
    let mut s = follower_with(&[1, 1], 2);
    // The log does not reach index 3.
    let r = s.apply_append_entries(&request(2, 3, 1, vec![entry(2, 4)], 0)).unwrap();
    assert_eq!(r, AppendEntriesResponse { term: 2, success: false, match_index: None });
    // The term at index 2 is another.
    let r = s.apply_append_entries(&request(2, 2, 2, vec![entry(2, 3)], 0)).unwrap();
    assert!(!r.success);
    assert_eq!(terms(&s), vec![1, 1]);
    // A higher term is adopted even so.
    s.persistent.voted_for = Some(5);
    let r = s.apply_append_entries(&request(4, 3, 1, vec![], 0)).unwrap();
    assert_eq!(r, AppendEntriesResponse { term: 4, success: false, match_index: None });
    assert_eq!((s.persistent.current_term, s.persistent.voted_for), (4, None));
}

#[test]
fn append_entries_extends_the_log() {
    let mut s = follower_with(&[], 0);
    let r = s.apply_append_entries(&request(1, 0, 0, vec![entry(1, 1), entry(1, 2)], 1)).unwrap();
    assert_eq!(r, AppendEntriesResponse { term: 1, success: true, match_index: Some(2) });
    assert_eq!(terms(&s), vec![1, 1]);
    assert_eq!(s.volatile.commit_index, 1);
    assert_eq!(s.persistent.current_term, 1);
    // A heartbeat changes nothing but the commit index.
    let r = s.apply_append_entries(&request(1, 2, 1, vec![], 5)).unwrap();
    assert_eq!(r, AppendEntriesResponse { term: 1, success: true, match_index: Some(2) });
    assert_eq!(s.volatile.commit_index, 2);
    // Entries that are there already are left alone.
    let r = s.apply_append_entries(&request(1, 0, 0, vec![entry(1, 1)], 0)).unwrap();
    assert_eq!(r.match_index, Some(2));
    assert_eq!(terms(&s), vec![1, 1]);
    assert_eq!(s.persistent.log[0].data, vec![1]);
}

#[test]
fn append_entries_cuts_at_a_conflict() {
    let mut s = follower_with(&[1, 1, 2, 2, 2], 2);
    let r = s.apply_append_entries(&request(3, 2, 1, vec![entry(2, 3), entry(3, 4)], 0)).unwrap();
    assert_eq!(r, AppendEntriesResponse { term: 3, success: true, match_index: Some(4) });
    assert_eq!(terms(&s), vec![1, 1, 2, 3]);
    let indices: Vec<u64> = s.persistent.log.iter().map(|e| e.index).collect();
    assert_eq!(indices, vec![1, 2, 3, 4]);
}

#[test]
fn append_entries_with_wrong_numbers_is_an_error() {
    let mut s = follower_with(&[1], 1);
    for entries in [vec![entry(1, 3)], vec![entry(1, 2), entry(1, 2)], vec![entry(1, 0)]] {
        match s.apply_append_entries(&request(1, 1, 1, entries, 0)) {
            Err(PyralogError::InvalidRequest(m)) => assert_eq!(m, "Entries are not numbered consecutively"),
            _ => panic!("misnumbered entries were taken"),
        }
    }
    assert_eq!(terms(&s), vec![1]);
    let mut s = follower_with(&[], 0);
    let r = request(1, u64::MAX, 0, vec![entry(1, 0)], 0);
    assert!(s.apply_append_entries(&r).is_err());
}

#[test]
fn commit_index_follows_the_leader_up_to_the_last_new_entry() {
    let mut s = follower_with(&[1, 1, 1, 1], 1);
    s.apply_append_entries(&request(1, 1, 1, vec![entry(1, 2)], 4)).unwrap();
    assert_eq!(s.volatile.commit_index, 2);
    s.apply_append_entries(&request(1, 4, 1, vec![], 3)).unwrap();
    assert_eq!(s.volatile.commit_index, 3);
    s.apply_append_entries(&request(1, 4, 1, vec![], 2)).unwrap();
    assert_eq!(s.volatile.commit_index, 3);
}

#[test]
fn vote_is_given_once_per_term() {
    let vote = |term, candidate_id, last_log_index, last_log_term| VoteRequest { term, candidate_id, last_log_index, last_log_term };
    let mut s = follower_with(&[1, 2], 2);
    // An old term gets nothing.
    assert_eq!(s.apply_vote_request(&vote(1, 7, 9, 9)), VoteResponse { term: 2, vote_granted: false });
    // A log that is behind gets nothing, but the term is adopted.
    assert_eq!(s.apply_vote_request(&vote(3, 7, 5, 1)), VoteResponse { term: 3, vote_granted: false });
    assert_eq!(s.apply_vote_request(&vote(3, 7, 1, 2)), VoteResponse { term: 3, vote_granted: false });
    assert_eq!(s.persistent.voted_for, None);
    // An up-to-date log gets the vote.
    assert_eq!(s.apply_vote_request(&vote(3, 7, 2, 2)), VoteResponse { term: 3, vote_granted: true });
    assert_eq!(s.persistent.voted_for, Some(7));
    // Another candidate of the term does not; the same one does again.
    assert_eq!(s.apply_vote_request(&vote(3, 8, 9, 9)), VoteResponse { term: 3, vote_granted: false });
    assert_eq!(s.apply_vote_request(&vote(3, 7, 2, 2)), VoteResponse { term: 3, vote_granted: true });
    // The next term frees the vote.
    assert_eq!(s.apply_vote_request(&vote(4, 8, 0, 3)), VoteResponse { term: 4, vote_granted: true });
    assert_eq!(s.persistent.voted_for, Some(8));
}

#[test]
fn leader_commits_what_a_majority_stores_in_its_term() {
    let mut s = follower_with(&[1, 1, 2, 2], 2);
    s.become_leader(3);
    let ok = |m| AppendEntriesResponse { term: 2, success: true, match_index: Some(m) };
    // The leader alone is no majority.
    s.record_append_response(0, &ok(4));
    assert_eq!(s.volatile.commit_index, 0);
    // Two of three store index 2, but it is of an older term.
    s.record_append_response(1, &ok(2));
    assert_eq!(s.volatile.commit_index, 0);
    assert_eq!(s.leader.as_ref().unwrap().next_index, vec![5, 3, 5]);
    // Index 3 is of the leader's term.
    s.record_append_response(1, &ok(3));
    assert_eq!(s.volatile.commit_index, 3);
    s.record_append_response(2, &ok(4));
    assert_eq!(s.volatile.commit_index, 4);
    // A refusal steps back, but not below one.
    let no = AppendEntriesResponse { term: 2, success: false, match_index: None };
    s.record_append_response(1, &no);
    assert_eq!(s.leader.as_ref().unwrap().next_index[1], 3);
    for _ in 0..5 {
        s.record_append_response(1, &no);
    }
    assert_eq!(s.leader.as_ref().unwrap().next_index[1], 1);
    // An unknown node changes nothing; a higher term ends the lead.
    s.record_append_response(7, &ok(1));
    assert_eq!(s.role, NodeRole::Leader);
    s.record_append_response(1, &AppendEntriesResponse { term: 5, success: false, match_index: None });
    assert_eq!((s.role, s.persistent.current_term), (NodeRole::Follower, 5));
    assert!(s.leader.is_none());
}

#[test]
fn leader_builds_requests_from_next_index() {
    let mut s = follower_with(&[1, 1, 2], 2);
    assert!(s.append_request_for(0).is_none());
    assert!(s.heartbeat_request().is_none());
    s.become_leader(2);
    s.volatile.commit_index = 1;
    let hb = s.heartbeat_request().unwrap();
    assert_eq!((hb.term, hb.leader_id, hb.prev_log_index, hb.prev_log_term, hb.entries.len(), hb.leader_commit), (2, 1, 3, 2, 0, 1));
    let r = s.append_request_for(1).unwrap();
    assert_eq!((r.prev_log_index, r.prev_log_term, r.entries.len()), (3, 2, 0));
    s.leader.as_mut().unwrap().next_index[1] = 2;
    let r = s.append_request_for(1).unwrap();
    assert_eq!((r.prev_log_index, r.prev_log_term), (1, 1));
    assert_eq!(r.entries.iter().map(|e| (e.term, e.index)).collect::<Vec<_>>(), vec![(1, 2), (2, 3)]);
    s.leader.as_mut().unwrap().next_index[1] = 1;
    let r = s.append_request_for(1).unwrap();
    assert_eq!((r.prev_log_index, r.prev_log_term, r.entries.len()), (0, 0, 3));
    assert!(s.append_request_for(2).is_none());
    // What the leader builds, a follower takes.
    let mut f = follower_with(&[1], 1);
    s.leader.as_mut().unwrap().next_index[1] = 2;
    let r = s.append_request_for(1).unwrap();
    assert!(f.apply_append_entries(&r).unwrap().success);
    assert_eq!(terms(&f), vec![1, 1, 2]);
    assert_eq!(f.volatile.commit_index, 1);
}

#[test]
fn raft_log_saves_over_the_start_of_the_file() {
    let mut log = RaftLog::open(vec![]);
    let loaded = log.load_state().unwrap();
    assert_eq!((loaded.current_term, loaded.voted_for, loaded.log.len()), (0, None, 0));
    let long = PersistentState { current_term: 3, voted_for: Some(2), log: vec![entry(1, 1), entry(3, 2)] };
    log.save_state(&long).unwrap();
    let full = log.bytes().len();
    // Term, vote, and two entries of term, index and one byte of payload.
    assert_eq!(full, 8 + 9 + 8 + 2 * (8 + 8 + 8 + 1));
    let loaded = log.load_state().unwrap();
    assert_eq!((loaded.current_term, loaded.voted_for), (3, Some(2)));
    assert_eq!(loaded.log.iter().map(|e| (e.term, e.index, e.data.clone())).collect::<Vec<_>>(), vec![(1, 1, vec![1]), (3, 2, vec![2])]);
    let short = PersistentState { current_term: 4, voted_for: None, log: vec![] };
    log.save_state(&short).unwrap();
    assert_eq!(log.bytes().len(), full);
    let loaded = log.load_state().unwrap();
    assert_eq!((loaded.current_term, loaded.voted_for, loaded.log.len()), (4, None, 0));
    assert!(matches!(RaftLog::open(vec![1, 2, 3]).load_state(), Err(PyralogError::SerializationError(_))));
    let d = long.duplicate();
    assert_eq!((d.current_term, d.voted_for, d.log.len()), (3, Some(2), 2));
}

#[test]
fn election_timer() {
    assert_eq!(heartbeat_interval(), 50);
    assert_eq!(HEARTBEAT_INTERVAL_MS, 50);
    let window = ElectionTimeoutConfig::default();
    assert_eq!((window.min_ms, window.max_ms), (150, 300));
    assert!(window.is_valid());
    assert!(!ElectionTimeoutConfig { min_ms: 50, max_ms: 300 }.is_valid());
    assert!(!ElectionTimeoutConfig { min_ms: 200, max_ms: 100 }.is_valid());
    let mut seen = std::collections::HashSet::new();
    for _ in 0..200 {
        let t = window.generate_timeout();
        assert!((150..=300).contains(&t));
        seen.insert(t);
    }
    assert!(seen.len() > 1);
    assert_eq!(ElectionTimeoutConfig { min_ms: 7, max_ms: 7 }.generate_timeout(), 7);
    // Under a leader that sends a heartbeat every 50 ms, no follower stands.
    for timeout in [150u64, 200, 300] {
        for elapsed in 0..=50u128 {
            assert!(!should_start_election(NodeRole::Follower, elapsed, timeout));
            assert!(!should_start_election(NodeRole::Candidate, elapsed, timeout));
        }
        // Once the leader is gone the timer runs out within the window.
        assert!(!should_start_election(NodeRole::Follower, timeout as u128 - 1, timeout));
        assert!(should_start_election(NodeRole::Follower, timeout as u128, timeout));
        assert!(should_start_election(NodeRole::Candidate, 2 * 300, timeout));
        assert!(!should_start_election(NodeRole::Leader, 10_000, timeout));
    }
}

#[test]
fn election_in_a_cluster_of_three() {
    let mut a = RaftNode::new(config(1, vec![1, 2, 3]), vec![]).unwrap();
    let mut b = RaftNode::new(config(2, vec![1, 2, 3]), vec![]).unwrap();
    let mut c = RaftNode::new(config(3, vec![1, 2, 3]), vec![]).unwrap();
    assert_eq!(a.majority(), 2);
    assert!(!a.is_leader());
    assert_eq!(a.leader_id(), None);
    assert!(matches!(a.propose(Bytes::from("x")), Err(PyralogError::NotLeader(None))));

    let ask = a.start_election().unwrap();
    assert_eq!(ask, VoteRequest { term: 1, candidate_id: 1, last_log_index: 0, last_log_term: 0 });
    assert_eq!(a.state().role, NodeRole::Candidate);
    assert!(!a.is_leader());
    let vote_b = b.handle_vote_request(ask).unwrap();
    assert_eq!(vote_b, VoteResponse { term: 1, vote_granted: true });
    // A second candidate of the same term gets no vote from b.
    let rival = c.start_election().unwrap();
    assert!(!b.handle_vote_request(rival).unwrap().vote_granted);
    assert!(!a.handle_vote_request(rival).unwrap().vote_granted);
    assert!(a.handle_vote_response(2, vote_b).unwrap());
    assert!(a.is_leader());
    assert_eq!(a.leader_id(), Some(1));
    // The rival has its own vote only, and a vote counted twice is one vote.
    assert!(!c.handle_vote_response(3, VoteResponse { term: 1, vote_granted: true }).unwrap());
    assert!(!c.handle_vote_response(9, VoteResponse { term: 1, vote_granted: true }).unwrap());
    assert!(!c.handle_vote_response(2, VoteResponse { term: 1, vote_granted: false }).unwrap());
    assert!(!c.is_leader());

    // The leader takes a proposal and brings the others up to date.
    assert_eq!(a.propose(Bytes::from("create log")).unwrap(), LogOffset::new(1));
    assert_eq!(a.propose(Bytes::from("assign")).unwrap(), LogOffset::new(2));
    let heartbeat = a.heartbeat_request().unwrap();
    assert!(!b.handle_append_entries(heartbeat).unwrap().success);
    a.handle_append_response(1, AppendEntriesResponse { term: 1, success: false, match_index: None }).unwrap();
    a.handle_append_response(1, AppendEntriesResponse { term: 1, success: false, match_index: None }).unwrap();
    let catch_up = a.append_request_for(1).unwrap();
    assert_eq!(catch_up.prev_log_index, 0);
    let answer = b.handle_append_entries(catch_up).unwrap();
    assert_eq!(answer, AppendEntriesResponse { term: 1, success: true, match_index: Some(2) });
    a.handle_append_response(0, AppendEntriesResponse { term: 1, success: true, match_index: Some(2) }).unwrap();
    assert_eq!(a.committed_offset(), LogOffset::new(0));
    a.handle_append_response(1, answer).unwrap();
    assert_eq!(a.committed_offset(), LogOffset::new(2));
    assert_eq!(b.state().persistent.log[1].data, b"assign".to_vec());
    // The candidate that lost takes the leader's entries.
    let answer = c.handle_append_entries(a.append_request_for(2).unwrap()).unwrap();
    assert_eq!(answer, AppendEntriesResponse { term: 1, success: true, match_index: Some(2) });
    assert_eq!(c.state().persistent.log.len(), 2);

    // What b has saved brings it back after a restart.
    let image = b.state_image().to_vec();
    let b2 = RaftNode::new(config(2, vec![1, 2, 3]), image).unwrap();
    assert_eq!(b2.state().persistent.current_term, 1);
    assert_eq!(b2.state().persistent.voted_for, Some(1));
    assert_eq!(b2.state().persistent.log.len(), 2);
    assert_eq!(b2.state().role, NodeRole::Follower);
    assert!(!b2.election_due(u64::MAX));
}

#[test]
fn single_node_leads_at_once() {
    let mut a = RaftNode::new(config(1, vec![1]), vec![]).unwrap();
    a.start_election().unwrap();
    assert!(a.is_leader());
    assert!(!a.election_due(0));
    assert_eq!(a.propose(Bytes::from("x")).unwrap(), LogOffset::new(1));
    a.handle_append_response(0, AppendEntriesResponse { term: 1, success: true, match_index: Some(1) }).unwrap();
    assert_eq!(a.committed_offset(), LogOffset::new(1));
    // A higher term in any answer ends the lead.
    assert!(!a.handle_vote_response(1, VoteResponse { term: 9, vote_granted: false }).unwrap());
    assert_eq!(a.state().persistent.current_term, 9);
    assert!(a.election_due(0));
}

#[test]
fn raft_node_refuses_a_broken_state_file() {
    assert!(matches!(RaftNode::new(config(1, vec![1]), vec![9, 9]), Err(PyralogError::SerializationError(_))));
    let mut log = RaftLog::open(vec![]);
    log.save_state(&PersistentState { current_term: 1, voted_for: None, log: vec![entry(1, 5)] }).unwrap();
    assert!(matches!(
        RaftNode::new(config(1, vec![1]), log.bytes().to_vec()),
        Err(PyralogError::ConsensusError(_))
    ));
    assert_eq!(RaftNode::state_file_name(12), "raft-12.log");
    assert_eq!(RaftNode::state_file_name(0), "raft-0.log");
}

#[test]
fn commit_index_never_falls() {
    let mut s = follower_with(&[1, 1, 1, 1], 1);
    s.apply_append_entries(&request(1, 4, 1, vec![], 3)).unwrap();
    assert_eq!(s.volatile.commit_index, 3);
    // A heartbeat that builds on the empty prefix vouches for nothing: the
    // commit index stays where it is, whatever the leader has committed.
    let answer = s.apply_append_entries(&request(1, 0, 0, vec![], 9)).unwrap();
    assert!(answer.success);
    assert_eq!(s.volatile.commit_index, 3);
    s.apply_append_entries(&request(1, 1, 1, vec![], 9)).unwrap();
    assert_eq!(s.volatile.commit_index, 3);
    s.apply_append_entries(&request(1, 4, 1, vec![], 9)).unwrap();
    assert_eq!(s.volatile.commit_index, 4);
    assert_eq!(terms(&s), vec![1, 1, 1, 1]);
}

#[test]
fn a_refused_vote_leaves_the_state_file_alone() {
    let vote = |term, candidate_id| VoteRequest { term, candidate_id, last_log_index: 0, last_log_term: 0 };
    let mut b = RaftNode::new(config(2, vec![1, 2, 3]), vec![]).unwrap();
    assert_eq!(b.handle_vote_request(vote(1, 1)).unwrap(), VoteResponse { term: 1, vote_granted: true });
    let saved = b.state_image().to_vec();
    assert!(!saved.is_empty());
    // A second candidate of the term is refused, and nothing is written.
    assert_eq!(b.handle_vote_request(vote(1, 3)).unwrap(), VoteResponse { term: 1, vote_granted: false });
    assert_eq!(b.state().persistent.voted_for, Some(1));
    assert_eq!(b.state_image(), &saved[..]);
    // So is a candidate of an older term.
    assert_eq!(b.handle_vote_request(vote(0, 3)).unwrap(), VoteResponse { term: 1, vote_granted: false });
    assert_eq!(b.state_image(), &saved[..]);
}

#[test]
fn an_adopted_term_is_saved_before_the_answer() {
    let mut b = RaftNode::new(config(2, vec![1, 2, 3]), vec![]).unwrap();
    b.handle_append_entries(request(1, 0, 0, vec![entry(1, 1)], 0)).unwrap();
    // A candidate whose log is behind gets no vote, but its term is adopted
    // and is in the file when the answer is given.
    let behind = VoteRequest { term: 5, candidate_id: 3, last_log_index: 0, last_log_term: 0 };
    assert_eq!(b.handle_vote_request(behind).unwrap(), VoteResponse { term: 5, vote_granted: false });
    let again = RaftNode::new(config(2, vec![1, 2, 3]), b.state_image().to_vec()).unwrap();
    assert_eq!(again.state().persistent.current_term, 5);
    assert_eq!(again.state().persistent.voted_for, None);
    assert_eq!(again.state().persistent.log.len(), 1);

    // A leader that steps down on an answer saves the term it adopts.
    let mut a = RaftNode::new(config(1, vec![1]), vec![]).unwrap();
    a.start_election().unwrap();
    assert!(a.is_leader());
    assert!(!a.handle_vote_response(1, VoteResponse { term: 7, vote_granted: false }).unwrap());
    let again = RaftNode::new(config(1, vec![1]), a.state_image().to_vec()).unwrap();
    assert_eq!(again.state().persistent.current_term, 7);
    a.start_election().unwrap();
    assert!(a.is_leader());
    a.handle_append_response(0, AppendEntriesResponse { term: 12, success: false, match_index: None }).unwrap();
    assert!(!a.is_leader());
    let again = RaftNode::new(config(1, vec![1]), a.state_image().to_vec()).unwrap();
    assert_eq!(again.state().persistent.current_term, 12);
    // An answer of the node's own term writes nothing.
    let saved = a.state_image().to_vec();
    a.handle_append_response(0, AppendEntriesResponse { term: 12, success: true, match_index: Some(1) }).unwrap();
    assert_eq!(a.state_image(), &saved[..]);
}
