//! The client: it puts together the requests that go to a node.
//!
//! Sending a request and receiving the answer is done by the embedding
//! program.

use vstd::prelude::*;
use vstd::string::StringExecFns;
use bytes::Bytes;
use crate::base::buffer::{bytes_of, opt_bytes_of};
use crate::base::log::LogId;
use crate::base::offset::LogOffset;
use crate::base::partition::PartitionId;
use crate::protocol::api::{
    AckMode, ConsumeRequest, CreateLogRequest, ProduceRecord, ProduceRequest,
};

verus! {

/// The number of bytes a consumer asks for at most: one mebibyte.
pub const CONSUME_MAX_BYTES: usize = 1024 * 1024;

/// A client of one node.
#[derive(Debug, Clone)]
pub struct PyralogClient {
    address: String,
}

impl PyralogClient {
    /// The address of the node.
    pub closed spec fn spec_address(&self) -> Seq<char> {
        self.address@
    }

    /// A client of the node at `address`.
    pub fn new(address: &str) -> (r: Self)
        ensures
            r.spec_address() == address@,
    {
        Self { address: String::from_str(address) }
    }

    /// The address of the node.
    pub fn address(&self) -> (r: &str)
        ensures
            r@ == self.spec_address(),
    {
        self.address.as_str()
    }

    /// The request that produces one record: no partition named, no
    /// headers, acknowledged by the leader.
    pub fn produce(&self, log_id: LogId, key: Option<Bytes>, value: Bytes) -> (r: ProduceRequest)
        ensures
            r.log_id == log_id,
            r.partition is None,
            r.acks == AckMode::Leader,
            r.records@.len() == 1,
            r.records@[0].key == key,
            r.records@[0].value == value,
            r.records@[0].headers@.len() == 0,
    {
        let mut records: Vec<ProduceRecord> = Vec::new();
        records.push(ProduceRecord { key, value, headers: Vec::new() });
        ProduceRequest { log_id, partition: None, records, acks: AckMode::Leader }
    }

    /// The request that produces a batch of records, in the order given.
    pub fn produce_batch(&self, log_id: LogId, records: Vec<(Option<Bytes>, Bytes)>) -> (r:
        ProduceRequest)
        ensures
            r.log_id == log_id,
            r.partition is None,
            r.acks == AckMode::Leader,
            r.records@.len() == records@.len(),
            forall|i: int|
                0 <= i < records@.len() ==> {
                    &&& opt_bytes_of((#[trigger] r.records@[i]).key) == opt_bytes_of(records@[i].0)
                    &&& bytes_of(r.records@[i].value) == bytes_of(records@[i].1)
                    &&& r.records@[i].headers@.len() == 0
                },
    {
        let mut out: Vec<ProduceRecord> = Vec::new();
        let n: usize = records.len();
        let mut i: usize = 0;
        while i < n
            invariant
                i <= n,
                n == records@.len(),
                out@.len() == i,
                forall|j: int|
                    0 <= j < i ==> {
                        &&& opt_bytes_of((#[trigger] out@[j]).key) == opt_bytes_of(records@[j].0)
                        &&& bytes_of(out@[j].value) == bytes_of(records@[j].1)
                        &&& out@[j].headers@.len() == 0
                    },
            decreases n - i,
        {
            let key: Option<Bytes> = crate::base::buffer::opt_buffer_clone(&records[i].0);
            let value: Bytes = records[i].1.clone();
            out.push(ProduceRecord { key, value, headers: Vec::new() });
            i += 1;
        }
        ProduceRequest { log_id, partition: None, records: out, acks: AckMode::Leader }
    }

    /// The request that consumes up to `max_records` records of a
    /// partition from `offset` on.
    pub fn consume(
        &self,
        log_id: LogId,
        partition: PartitionId,
        offset: LogOffset,
        max_records: usize,
    ) -> (r: ConsumeRequest)
        ensures
            r.log_id == log_id,
            r.partition == partition,
            r.offset == offset,
            r.max_records == max_records,
            r.max_bytes == CONSUME_MAX_BYTES,
    {
        ConsumeRequest { log_id, partition, offset, max_records, max_bytes: CONSUME_MAX_BYTES }
    }

    /// The request that creates a log.
    pub fn create_log(&self, log_id: LogId, partition_count: u32, replication_factor: u32) -> (r:
        CreateLogRequest)
        ensures
            r.log_id == log_id,
            r.partition_count == partition_count,
            r.replication_factor == replication_factor,
    {
        CreateLogRequest { log_id, partition_count, replication_factor }
    }
}

} // verus!
