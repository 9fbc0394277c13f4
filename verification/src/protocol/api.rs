//! The requests of the client protocol and their answers.

use vstd::prelude::*;
use bytes::Bytes;
use crate::base::log::LogId;
use crate::base::offset::LogOffset;
use crate::base::partition::PartitionId;
use crate::base::record::Record;

verus! {

/// What a producer waits for before it takes a record as written.
#[derive(Debug, Clone, Copy, PartialEq, Eq, Structural)]
pub enum AckMode {
    /// Nothing: the offset is all it wants.
    NoAck,
    /// The leader's flush.
    Leader,
    /// The write quorum.
    All,
}

/// One record as a producer hands it in.
#[derive(Debug, Clone)]
pub struct ProduceRecord {
    pub key: Option<Bytes>,
    pub value: Bytes,
    pub headers: Vec<(String, Bytes)>,
}

/// A request to append records to a log.
#[derive(Debug, Clone)]
pub struct ProduceRequest {
    pub log_id: LogId,
    /// The partition to write to; left open, the first record's key
    /// decides.
    pub partition: Option<PartitionId>,
    pub records: Vec<ProduceRecord>,
    pub acks: AckMode,
}

/// The answer to a produce request.
#[derive(Debug, Clone)]
pub struct ProduceResponse {
    pub partition: PartitionId,
    /// The offset of the first record written.
    pub base_offset: LogOffset,
    pub error: Option<String>,
}

/// A request to read records from a partition.
#[derive(Debug, Clone)]
pub struct ConsumeRequest {
    pub log_id: LogId,
    pub partition: PartitionId,
    /// The offset to read from.
    pub offset: LogOffset,
    /// The number of records to return at most.
    pub max_records: usize,
    /// The number of stored bytes to return at most.
    pub max_bytes: usize,
}

/// The answer to a consume request.
#[derive(Debug, Clone)]
pub struct ConsumeResponse {
    pub partition: PartitionId,
    pub high_watermark: LogOffset,
    pub records: Vec<Record>,
    pub error: Option<String>,
}

/// A request to create a log.
#[derive(Debug, Clone)]
pub struct CreateLogRequest {
    pub log_id: LogId,
    pub partition_count: u32,
    pub replication_factor: u32,
}

} // verus!
