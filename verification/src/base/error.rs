//! The error type shared by every subsystem.

use vstd::prelude::*;
use vstd::string::StringExecFns;
use crate::storage::names::{decimal_digits, decimal_text};

verus! {

/// What can go wrong in a log node.
#[derive(Debug, Clone)]
pub enum PyralogError {
    /// No log of that name is registered.
    LogNotFound(String),
    /// The log has no partition of that number.
    PartitionNotFound(u64),
    /// A read past the end of a segment, or an offset that cannot be used.
    InvalidOffset(u64),
    /// Segment or index content that cannot be used.
    StorageError(String),
    /// A fault of the consensus layer.
    ConsensusError(String),
    /// A fault of the replication layer.
    ReplicationError(String),
    /// Bytes that do not decode, or a value that does not encode.
    SerializationError(String),
    /// A fault of the network layer.
    NetworkError(String),
    /// A configuration that breaks a rule.
    ConfigError(String),
    /// No leader is known for the partition.
    LeaderNotAvailable,
    /// This node does not lead; the leader, where known, is given.
    NotLeader(Option<u64>),
    /// Too few replicas answered.
    QuorumNotAvailable,
    /// A deadline passed.
    Timeout,
    /// A request that cannot be served as written.
    InvalidRequest(String),
    /// A fault of the operating system's input and output.
    IoError(String),
}

impl PyralogError {
    /// What the error says, as a mathematical value: a fixed phrase, and
    /// behind it the detail that the error carries.
    pub open spec fn spec_text(self) -> Seq<char> {
        match self {
            PyralogError::LogNotFound(s) => "Log not found: "@ + s@,
            PyralogError::PartitionNotFound(p) => "Partition not found: "@ + decimal_digits(
                p as nat,
            ),
            PyralogError::InvalidOffset(o) => "Invalid offset: "@ + decimal_digits(o as nat),
            PyralogError::StorageError(s) => "Storage error: "@ + s@,
            PyralogError::ConsensusError(s) => "Consensus error: "@ + s@,
            PyralogError::ReplicationError(s) => "Replication error: "@ + s@,
            PyralogError::SerializationError(s) => "Serialization error: "@ + s@,
            PyralogError::NetworkError(s) => "Network error: "@ + s@,
            PyralogError::ConfigError(s) => "Configuration error: "@ + s@,
            PyralogError::LeaderNotAvailable => "Leader not available"@,
            PyralogError::NotLeader(None) => "Not leader: current leader is None"@,
            PyralogError::NotLeader(Some(n)) => "Not leader: current leader is Some("@
                + decimal_digits(n as nat) + ")"@,
            PyralogError::QuorumNotAvailable => "Quorum not available"@,
            PyralogError::Timeout => "Operation timeout"@,
            PyralogError::InvalidRequest(s) => "Invalid request: "@ + s@,
            PyralogError::IoError(s) => "IO error: "@ + s@,
        }
    }

    /// A phrase followed by a detail.
    fn phrase(phrase: &str, detail: &str) -> (r: String)
        ensures
            r@ == phrase@ + detail@,
    {
        let mut s: String = String::from_str(phrase);
        s.append(detail);
        s
    }

    /// What the error says.
    pub fn to_text(&self) -> (r: String)
        ensures
            r@ == self.spec_text(),
    {
        match self {
            PyralogError::LogNotFound(s) => Self::phrase("Log not found: ", s.as_str()),
            PyralogError::PartitionNotFound(p) => {
                let digits: String = decimal_text(*p);
                Self::phrase("Partition not found: ", digits.as_str())
            },
            PyralogError::InvalidOffset(o) => {
                let digits: String = decimal_text(*o);
                Self::phrase("Invalid offset: ", digits.as_str())
            },
            PyralogError::StorageError(s) => Self::phrase("Storage error: ", s.as_str()),
            PyralogError::ConsensusError(s) => Self::phrase("Consensus error: ", s.as_str()),
            PyralogError::ReplicationError(s) => Self::phrase("Replication error: ", s.as_str()),
            PyralogError::SerializationError(s) => Self::phrase(
                "Serialization error: ",
                s.as_str(),
            ),
            PyralogError::NetworkError(s) => Self::phrase("Network error: ", s.as_str()),
            PyralogError::ConfigError(s) => Self::phrase("Configuration error: ", s.as_str()),
            PyralogError::LeaderNotAvailable => String::from_str("Leader not available"),
            PyralogError::NotLeader(None) => String::from_str("Not leader: current leader is None"),
            PyralogError::NotLeader(Some(n)) => {
                let digits: String = decimal_text(*n);
                let mut s: String = Self::phrase(
                    "Not leader: current leader is Some(",
                    digits.as_str(),
                );
                s.append(")");
                s
            },
            PyralogError::QuorumNotAvailable => String::from_str("Quorum not available"),
            PyralogError::Timeout => String::from_str("Operation timeout"),
            PyralogError::InvalidRequest(s) => Self::phrase("Invalid request: ", s.as_str()),
            PyralogError::IoError(s) => Self::phrase("IO error: ", s.as_str()),
        }
    }
}

} // verus!
