//! Records and batches of records.

use vstd::prelude::*;
use bytes::Bytes;
use std::time::SystemTime;
use crate::base::buffer::{buffer_len, bytes_of, opt_buffer_clone, opt_bytes_of};
use crate::base::clock::wall_clock_now;
use crate::base::epoch::Epoch;
use crate::base::offset::LogOffset;

verus! {

/// A named piece of metadata attached to a record.
#[derive(Debug, Clone)]
pub struct RecordHeader {
    pub key: String,
    pub value: Bytes,
}

/// A header as a mathematical value.
pub struct HeaderView {
    pub key: Seq<char>,
    pub value: Seq<u8>,
}

impl View for RecordHeader {
    type V = HeaderView;

    open spec fn view(&self) -> HeaderView {
        HeaderView { key: self.key@, value: bytes_of(self.value) }
    }
}

impl RecordHeader {
    pub fn new(key: String, value: Bytes) -> (r: Self)
        ensures
            r.key == key,
            r.value == value,
    {
        Self { key, value }
    }

    /// A second header with the same name and content.
    pub fn duplicate(&self) -> (r: Self)
        ensures
            r@ == self@,
    {
        Self { key: self.key.clone(), value: self.value.clone() }
    }
}

/// The headers of a list as mathematical values, in order.
pub open spec fn headers_view(headers: Seq<RecordHeader>) -> Seq<HeaderView> {
    headers.map_values(|h: RecordHeader| h@)
}

/// Copies a list of headers.
pub fn duplicate_headers(headers: &Vec<RecordHeader>) -> (r: Vec<RecordHeader>)
    ensures
        headers_view(r@) == headers_view(headers@),
{
    let mut out: Vec<RecordHeader> = Vec::new();
    let n: usize = headers.len();
    let mut i: usize = 0;
    while i < n
        invariant
            i <= n,
            n == headers@.len(),
            headers_view(out@) =~= headers_view(headers@).subrange(0, i as int),
        decreases n - i,
    {
        let h: RecordHeader = headers[i].duplicate();
        let ghost before = out@;
        out.push(h);
        assert(headers_view(out@) =~= headers_view(before).push(h@));
        i += 1;
    }
    out
}

/// One record of a log.
#[derive(Debug, Clone)]
pub struct Record {
    /// The record's position in its partition.
    pub offset: LogOffset,
    /// The epoch of the leader that wrote it.
    pub epoch: Epoch,
    /// When the record was made.
    pub timestamp: SystemTime,
    /// The key, used to choose a partition.
    pub key: Option<Bytes>,
    /// The payload.
    pub value: Bytes,
    /// Metadata attached by the producer.
    pub headers: Vec<RecordHeader>,
}

/// A record as a mathematical value.
pub struct RecordView {
    pub offset: u64,
    pub epoch: u64,
    pub timestamp: SystemTime,
    pub key: Option<Seq<u8>>,
    pub value: Seq<u8>,
    pub headers: Seq<HeaderView>,
}

impl View for Record {
    type V = RecordView;

    open spec fn view(&self) -> RecordView {
        RecordView {
            offset: self.offset.0,
            epoch: self.epoch.0,
            timestamp: self.timestamp,
            key: opt_bytes_of(self.key),
            value: bytes_of(self.value),
            headers: headers_view(self.headers@),
        }
    }
}

impl RecordView {
    /// The size that counts against byte limits: key and payload together,
    /// capped at what a `usize` holds.
    pub open spec fn size_bytes(self) -> int {
        let key_len: int = match self.key {
            Some(k) => k.len() as int,
            None => 0,
        };
        if key_len + self.value.len() > usize::MAX {
            usize::MAX as int
        } else {
            key_len + self.value.len()
        }
    }
}

/// The sum of the sizes of the first `n` records, capped at what a `usize`
/// holds.
pub open spec fn total_size(records: Seq<RecordView>, n: int) -> int
    decreases n,
{
    if n <= 0 || n > records.len() {
        0
    } else {
        let sum = total_size(records, n - 1) + records[n - 1].size_bytes();
        if sum > usize::MAX {
            usize::MAX as int
        } else {
            sum
        }
    }
}

/// The records of a list as mathematical values, in order.
pub open spec fn records_view(records: Seq<Record>) -> Seq<RecordView> {
    records.map_values(|r: Record| r@)
}

impl Record {
    /// A record that has no place in a log yet: offset zero, no epoch, the
    /// current time, no headers.
    pub fn new(key: Option<Bytes>, value: Bytes) -> (r: Self)
        ensures
            r.offset.0 == 0,
            r.epoch.0 == 0,
            r.key == key,
            r.value == value,
            r.headers@.len() == 0,
    {
        Self::new_at(key, value, wall_clock_now())
    }

    /// A record made at the time `timestamp` that has no place in a log
    /// yet: offset zero, no epoch, no headers.
    pub fn new_at(key: Option<Bytes>, value: Bytes, timestamp: SystemTime) -> (r: Self)
        ensures
            r.offset.0 == 0,
            r.epoch.0 == 0,
            r.timestamp == timestamp,
            r.key == key,
            r.value == value,
            r.headers@.len() == 0,
    {
        Self {
            offset: LogOffset::zero(),
            epoch: Epoch::invalid(),
            timestamp,
            key,
            value,
            headers: Vec::new(),
        }
    }

    /// The same record under `epoch`.
    pub fn with_epoch(self, epoch: Epoch) -> (r: Self)
        ensures
            r == (Record { epoch, ..self }),
    {
        let mut r = self;
        r.epoch = epoch;
        r
    }

    /// The same record with `headers` in place of its own.
    pub fn with_headers(self, headers: Vec<RecordHeader>) -> (r: Self)
        ensures
            r == (Record { headers, ..self }),
    {
        let mut r = self;
        r.headers = headers;
        r
    }

    /// The same record at `offset`.
    pub fn with_offset(self, offset: LogOffset) -> (r: Self)
        ensures
            r == (Record { offset, ..self }),
    {
        let mut r = self;
        r.offset = offset;
        r
    }

    /// The length of key and payload together.
    pub fn size_bytes(&self) -> (n: usize)
        ensures
            n == self@.size_bytes(),
    {
        let key_len: usize = match &self.key {
            Some(k) => buffer_len(k),
            None => 0,
        };
        key_len.saturating_add(buffer_len(&self.value))
    }

    /// A second record with the same content.
    pub fn duplicate(&self) -> (r: Self)
        ensures
            r@ == self@,
    {
        Self {
            offset: self.offset,
            epoch: self.epoch,
            timestamp: self.timestamp,
            key: opt_buffer_clone(&self.key),
            value: self.value.clone(),
            headers: duplicate_headers(&self.headers),
        }
    }
}

/// How the records of a batch are packed.
#[derive(Debug, Clone, Copy, PartialEq, Eq, Structural)]
pub enum CompressionType {
    Uncompressed,
    Gzip,
    Snappy,
    Lz4,
    Zstd,
}

/// Records that travel together: the unit of replication.
#[derive(Debug, Clone)]
pub struct RecordBatch {
    /// The offset of the first record.
    pub base_offset: LogOffset,
    /// The epoch the batch was written under.
    pub epoch: Epoch,
    /// The records, in log order.
    pub records: Vec<Record>,
    /// How the payload is packed.
    pub compression: CompressionType,
    /// A checksum of the packed payload.
    pub crc: u32,
}

impl RecordBatch {
    /// A batch under no epoch, unpacked, with a zero checksum.
    pub fn new(base_offset: LogOffset, records: Vec<Record>) -> (r: Self)
        ensures
            r.base_offset == base_offset,
            r.epoch.0 == 0,
            r.records == records,
            r.compression == CompressionType::Uncompressed,
            r.crc == 0,
    {
        Self {
            base_offset,
            epoch: Epoch::invalid(),
            records,
            compression: CompressionType::Uncompressed,
            crc: 0,
        }
    }

    /// The same batch under `epoch`.
    pub fn with_epoch(self, epoch: Epoch) -> (r: Self)
        ensures
            r == (RecordBatch { epoch, ..self }),
    {
        let mut r = self;
        r.epoch = epoch;
        r
    }

    /// The same batch marked as packed with `compression`.
    pub fn with_compression(self, compression: CompressionType) -> (r: Self)
        ensures
            r == (RecordBatch { compression, ..self }),
    {
        let mut r = self;
        r.compression = compression;
        r
    }

    /// The number of records.
    pub fn count(&self) -> (n: usize)
        ensures
            n == self.records@.len(),
    {
        self.records.len()
    }

    /// The sizes of all records together.
    pub fn size_bytes(&self) -> (n: usize)
        ensures
            n == total_size(records_view(self.records@), self.records@.len() as int),
    {
        let count: usize = self.records.len();
        let mut sum: usize = 0;
        let mut i: usize = 0;
        while i < count
            invariant
                i <= count,
                count == self.records@.len(),
                sum == total_size(records_view(self.records@), i as int),
            decreases count - i,
        {
            sum = sum.saturating_add(self.records[i].size_bytes());
            i += 1;
        }
        sum
    }

    /// The offset of the last record, which an empty batch does not have.
    pub fn last_offset(&self) -> (r: Option<LogOffset>)
        ensures
            r == (if self.records@.len() == 0 {
                None
            } else {
                Some(self.records@.last().offset)
            }),
    {
        let n: usize = self.records.len();
        if n == 0 {
            None
        } else {
            Some(self.records[n - 1].offset)
        }
    }
}

} // verus!
