//! The Raft state machine that orders cluster metadata and elects leaders.

pub mod append;
pub mod election;
pub mod leader;
pub mod raft;
pub mod raft_log;
pub mod rpc;
pub mod state;
pub mod vote;
