//! Election timing.

use vstd::prelude::*;
use crate::base::random::{random_u64_between, thread_generator};
use crate::consensus::state::NodeRole;

verus! {

/// The interval between a leader's heartbeats, in milliseconds. It has to
/// stay well below the shortest election timeout.
pub const HEARTBEAT_INTERVAL_MS: u64 = 50;

/// The window from which each election timeout is drawn, in milliseconds.
#[derive(Debug, Clone, Copy, PartialEq, Eq, Structural)]
pub struct ElectionTimeoutConfig {
    pub min_ms: u64,
    pub max_ms: u64,
}

impl Default for ElectionTimeoutConfig {
    fn default() -> (r: Self)
        ensures
            r.min_ms == 150,
            r.max_ms == 300,
    {
        Self { min_ms: 150, max_ms: 300 }
    }
}

impl ElectionTimeoutConfig {
    /// Draws an election timeout, in milliseconds, from the window. Every
    /// node draws anew each time, so that candidates rarely tie. The window
    /// must not be empty.
    pub fn generate_timeout(&self) -> (r: u64)
        requires
            self.min_ms <= self.max_ms,
        ensures
            self.min_ms <= r <= self.max_ms,
    {
        let mut rng = thread_generator();
        random_u64_between(&mut rng, self.min_ms, self.max_ms)
    }

    /// Whether the window is usable: not empty, and wholly above the
    /// heartbeat interval, so that a follower that hears every heartbeat
    /// never times out.
    pub fn is_valid(&self) -> (r: bool)
        ensures
            r == (HEARTBEAT_INTERVAL_MS < self.min_ms <= self.max_ms),
    {
        HEARTBEAT_INTERVAL_MS < self.min_ms && self.min_ms <= self.max_ms
    }
}

/// The rule of the election timer: a node stands for election unless it
/// leads, once it has not heard from a leader for as long as its timeout
/// says.
pub open spec fn election_is_due(role: NodeRole, elapsed_ms: u128, timeout_ms: u64) -> bool {
    !(role is Leader) && elapsed_ms >= timeout_ms
}

/// Whether a node whose election timer ran out should stand for election:
/// it does unless it leads, once it has not heard from a leader for as long
/// as its timeout says.
pub fn should_start_election(role: NodeRole, elapsed_ms: u128, timeout_ms: u64) -> (r: bool)
    ensures
        r == election_is_due(role, elapsed_ms, timeout_ms),
{
    !matches!(role, NodeRole::Leader) && elapsed_ms >= timeout_ms as u128
}

/// A follower that hears a heartbeat at least every heartbeat interval
/// never stands for election, whatever timeout it drew from a valid window.
pub proof fn lemma_no_election_under_heartbeats(
    config: ElectionTimeoutConfig,
    role: NodeRole,
    elapsed_ms: u128,
    timeout_ms: u64,
)
    requires
        HEARTBEAT_INTERVAL_MS < config.min_ms <= config.max_ms,
        config.min_ms <= timeout_ms <= config.max_ms,
        elapsed_ms <= HEARTBEAT_INTERVAL_MS,
    ensures
        !(!(role is Leader) && elapsed_ms >= timeout_ms),
{
}

/// The heartbeat interval in milliseconds.
pub fn heartbeat_interval() -> (r: u64)
    ensures
        r == HEARTBEAT_INTERVAL_MS,
{
    HEARTBEAT_INTERVAL_MS
}

} // verus!
