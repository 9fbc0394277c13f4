//! The byte form of a record.
//!
//! Records are written with `bincode`, field after field: offset, epoch,
//! timestamp, key, payload, headers. A batch is written as its base
//! offset, its epoch, its records, a number for the way it is packed, and
//! its checksum. The encoding itself is bincode's business; this module
//! gives the encoder's and the decoder's results a name, so that contracts
//! can say which bytes stand for which record, and takes on trust that
//! bincode reads back what it wrote.

use vstd::prelude::*;
use vstd::string::StringExecFns;
use bincode::ErrorKind;
use bytes::Bytes;
use std::time::SystemTime;
use crate::base::buffer::{bytes_of, opt_buffer_clone, opt_bytes_of};
use crate::base::epoch::Epoch;
use crate::base::error::PyralogError;
use crate::base::offset::LogOffset;
use crate::base::record::{
    CompressionType, HeaderView, Record, RecordBatch, RecordHeader, RecordView, headers_view,
    records_view,
};

verus! {

#[verifier::external_type_specification]
#[verifier::external_body]
pub struct ExErrorKind(bincode::ErrorKind);

/// The bytes that bincode writes for a record.
pub uninterp spec fn record_wire(r: RecordView) -> Seq<u8>;

/// Whether bincode encodes the record `r` at all: it refuses a value that
/// one of its fields cannot be written from.
pub uninterp spec fn record_encodes(r: RecordView) -> bool;

/// The record that bincode reads from `bytes`, if they hold one. Bytes
/// behind the record are ignored.
pub uninterp spec fn record_unwire(bytes: Seq<u8>) -> Option<RecordView>;

/// Name and content of each pair as header values.
pub open spec fn pairs_view(pairs: Seq<(String, Bytes)>) -> Seq<HeaderView> {
    pairs.map_values(|p: (String, Bytes)| HeaderView { key: p.0@, value: bytes_of(p.1) })
}

/// The record that the fields handed to bincode make up: offset, epoch,
/// timestamp, key, payload and headers, in this order.
pub open spec fn fields_view(
    f: (u64, u64, SystemTime, Option<Bytes>, Bytes, Vec<(String, Bytes)>),
) -> RecordView {
    RecordView {
        offset: f.0,
        epoch: f.1,
        timestamp: f.2,
        key: opt_bytes_of(f.3),
        value: bytes_of(f.4),
        headers: pairs_view(f.5@),
    }
}

/// `bincode::serialize` on the fields of a record. Whether it succeeds
/// depends on the fields alone. Where it does, the bytes are the encoding
/// of those fields, and decoding them gives the fields back.
#[verifier::external_body]
fn bincode_write_record(
    f: &(u64, u64, SystemTime, Option<Bytes>, Bytes, Vec<(String, Bytes)>),
) -> (r: Result<Vec<u8>, Box<ErrorKind>>)
    ensures
        r is Ok <==> record_encodes(fields_view(*f)),
        r matches Ok(b) ==> b@ == record_wire(fields_view(*f)) && record_unwire(b@) == Some(
            fields_view(*f),
        ),
{
    bincode::serialize(f)
}

/// `bincode::deserialize` into the fields of a record. It succeeds exactly
/// on the bytes that hold a record, and gives that record's fields.
#[verifier::external_body]
fn bincode_read_record(bytes: &[u8]) -> (r: Result<
    (u64, u64, SystemTime, Option<Bytes>, Bytes, Vec<(String, Bytes)>),
    Box<ErrorKind>,
>)
    ensures
        match r {
            Ok(f) => record_unwire(bytes@) == Some(fields_view(f)),
            Err(_) => record_unwire(bytes@) is None,
        },
{
    bincode::deserialize(bytes)
}

/// Bincode's description of what went wrong: the text that the error
/// displays as.
pub(crate) fn bincode_error_text(e: &ErrorKind) -> (r: String)
    ensures
        vstd::string::to_string_from_display_ensures::<ErrorKind>(e, r),
{
    e.to_string()
}

impl Record {
    /// The fields of the record as bincode takes them.
    fn to_wire(&self) -> (f: (u64, u64, SystemTime, Option<Bytes>, Bytes, Vec<(String, Bytes)>))
        ensures
            fields_view(f) == self@,
    {
        let mut pairs: Vec<(String, Bytes)> = Vec::new();
        let n: usize = self.headers.len();
        let mut i: usize = 0;
        while i < n
            invariant
                i <= n,
                n == self.headers@.len(),
                pairs_view(pairs@) =~= headers_view(self.headers@).subrange(0, i as int),
            decreases n - i,
        {
            let pair: (String, Bytes) = (self.headers[i].key.clone(), self.headers[i].value.clone());
            let ghost before = pairs@;
            pairs.push(pair);
            assert(pairs_view(pairs@) =~= pairs_view(before).push(
                HeaderView { key: pair.0@, value: bytes_of(pair.1) },
            ));
            i += 1;
        }
        assert(headers_view(self.headers@).subrange(0, n as int) =~= headers_view(self.headers@));
        (
            self.offset.0,
            self.epoch.0,
            self.timestamp,
            opt_buffer_clone(&self.key),
            self.value.clone(),
            pairs,
        )
    }

    /// The record that the fields make up.
    fn from_wire(f: (u64, u64, SystemTime, Option<Bytes>, Bytes, Vec<(String, Bytes)>)) -> (r:
        Record)
        ensures
            r@ == fields_view(f),
    {
        let mut headers: Vec<RecordHeader> = Vec::new();
        let n: usize = f.5.len();
        let mut i: usize = 0;
        while i < n
            invariant
                i <= n,
                n == f.5@.len(),
                headers_view(headers@) =~= pairs_view(f.5@).subrange(0, i as int),
            decreases n - i,
        {
            let h = RecordHeader { key: f.5[i].0.clone(), value: f.5[i].1.clone() };
            let ghost before = headers@;
            headers.push(h);
            assert(headers_view(headers@) =~= headers_view(before).push(h@));
            i += 1;
        }
        assert(pairs_view(f.5@).subrange(0, n as int) =~= pairs_view(f.5@));
        Record {
            offset: LogOffset(f.0),
            epoch: Epoch(f.1),
            timestamp: f.2,
            key: f.3,
            value: f.4,
            headers,
        }
    }

    /// Encodes the record. The bytes that come out decode to the same
    /// record. Encoding fails exactly where bincode refuses the record.
    pub fn to_bytes(&self) -> (r: Result<Vec<u8>, PyralogError>)
        ensures
            r is Ok <==> record_encodes(self@),
            r matches Ok(b) ==> b@ == record_wire(self@) && record_unwire(b@) == Some(self@),
            r matches Err(e) ==> e is SerializationError,
    {
        let fields = self.to_wire();
        match bincode_write_record(&fields) {
            Ok(b) => Ok(b),
            Err(e) => Err(PyralogError::SerializationError(bincode_error_text(&e))),
        }
    }

    /// Decodes a record from the front of `bytes`. Succeeds exactly where
    /// the bytes hold a record.
    pub fn from_bytes(bytes: &[u8]) -> (r: Result<Record, PyralogError>)
        ensures
            match r {
                Ok(rec) => record_unwire(bytes@) == Some(rec@),
                Err(e) => record_unwire(bytes@) is None && e is SerializationError,
            },
    {
        match bincode_read_record(bytes) {
            Ok(fields) => Ok(Self::from_wire(fields)),
            Err(e) => Err(PyralogError::SerializationError(bincode_error_text(&e))),
        }
    }
}

/// A batch as it is written: its fields as plain values, the way it is
/// packed as a number.
pub struct BatchView {
    pub base_offset: u64,
    pub epoch: u64,
    pub records: Seq<RecordView>,
    pub compression: u32,
    pub crc: u32,
}

/// The bytes that bincode writes for a batch.
pub uninterp spec fn batch_wire(b: BatchView) -> Seq<u8>;

/// Whether bincode encodes the batch `b` at all.
pub uninterp spec fn batch_encodes(b: BatchView) -> bool;

/// The batch that bincode reads from `bytes`, if they hold one. Bytes
/// behind the batch are ignored.
pub uninterp spec fn batch_unwire(bytes: Seq<u8>) -> Option<BatchView>;

/// The records that a list of record fields makes up, in order.
pub open spec fn all_fields_view(
    f: Seq<(u64, u64, SystemTime, Option<Bytes>, Bytes, Vec<(String, Bytes)>)>,
) -> Seq<RecordView> {
    f.map_values(
        |t: (u64, u64, SystemTime, Option<Bytes>, Bytes, Vec<(String, Bytes)>)| fields_view(t),
    )
}

/// The batch that the fields handed to bincode make up.
pub open spec fn batch_fields_view(
    f: (
        u64,
        u64,
        Vec<(u64, u64, SystemTime, Option<Bytes>, Bytes, Vec<(String, Bytes)>)>,
        u32,
        u32,
    ),
) -> BatchView {
    BatchView {
        base_offset: f.0,
        epoch: f.1,
        records: all_fields_view(f.2@),
        compression: f.3,
        crc: f.4,
    }
}

/// The number that stands for a way of packing.
pub open spec fn compression_tag(c: CompressionType) -> u32 {
    match c {
        CompressionType::Uncompressed => 0,
        CompressionType::Gzip => 1,
        CompressionType::Snappy => 2,
        CompressionType::Lz4 => 3,
        CompressionType::Zstd => 4,
    }
}

/// `bincode::serialize` on the fields of a batch. Whether it succeeds
/// depends on the fields alone. Where it does, the bytes are the encoding
/// of those fields, and decoding them gives the fields back.
#[verifier::external_body]
fn bincode_write_batch(
    f: &(
        u64,
        u64,
        Vec<(u64, u64, SystemTime, Option<Bytes>, Bytes, Vec<(String, Bytes)>)>,
        u32,
        u32,
    ),
) -> (r: Result<Vec<u8>, Box<ErrorKind>>)
    ensures
        r is Ok <==> batch_encodes(batch_fields_view(*f)),
        r matches Ok(b) ==> b@ == batch_wire(batch_fields_view(*f)) && batch_unwire(b@) == Some(
            batch_fields_view(*f),
        ),
{
    bincode::serialize(f)
}

/// `bincode::deserialize` into the fields of a batch. It succeeds exactly
/// on the bytes that hold a batch, and gives that batch's fields.
#[verifier::external_body]
fn bincode_read_batch(bytes: &[u8]) -> (r: Result<
    (u64, u64, Vec<(u64, u64, SystemTime, Option<Bytes>, Bytes, Vec<(String, Bytes)>)>, u32, u32),
    Box<ErrorKind>,
>)
    ensures
        match r {
            Ok(f) => batch_unwire(bytes@) == Some(batch_fields_view(f)),
            Err(_) => batch_unwire(bytes@) is None,
        },
{
    bincode::deserialize(bytes)
}

impl RecordBatch {
    /// The batch as it is written.
    pub open spec fn wire_view(&self) -> BatchView {
        BatchView {
            base_offset: self.base_offset.0,
            epoch: self.epoch.0,
            records: records_view(self.records@),
            compression: compression_tag(self.compression),
            crc: self.crc,
        }
    }

    /// Encodes the batch. The bytes that come out decode to the same
    /// batch. Encoding fails exactly where bincode refuses the batch.
    pub fn to_bytes(&self) -> (r: Result<Vec<u8>, PyralogError>)
        ensures
            r is Ok <==> batch_encodes(self.wire_view()),
            r matches Ok(b) ==> b@ == batch_wire(self.wire_view()) && batch_unwire(b@) == Some(
                self.wire_view(),
            ),
            r matches Err(e) ==> e is SerializationError,
    {
        let mut all: Vec<(u64, u64, SystemTime, Option<Bytes>, Bytes, Vec<(String, Bytes)>)> =
            Vec::new();
        let n: usize = self.records.len();
        let mut i: usize = 0;
        while i < n
            invariant
                i <= n,
                n == self.records@.len(),
                all_fields_view(all@) =~= records_view(self.records@).subrange(0, i as int),
            decreases n - i,
        {
            let f = self.records[i].to_wire();
            let ghost before = all@;
            all.push(f);
            assert(all_fields_view(all@) =~= all_fields_view(before).push(fields_view(f)));
            i += 1;
        }
        assert(records_view(self.records@).subrange(0, n as int) =~= records_view(self.records@));
        let tag: u32 = match self.compression {
            CompressionType::Uncompressed => 0,
            CompressionType::Gzip => 1,
            CompressionType::Snappy => 2,
            CompressionType::Lz4 => 3,
            CompressionType::Zstd => 4,
        };
        let fields = (self.base_offset.0, self.epoch.0, all, tag, self.crc);
        match bincode_write_batch(&fields) {
            Ok(b) => Ok(b),
            Err(e) => Err(PyralogError::SerializationError(bincode_error_text(&e))),
        }
    }

    /// Decodes a batch from the front of `bytes`. Succeeds exactly where
    /// the bytes hold a batch that is packed in a way the library knows.
    pub fn from_bytes(bytes: &[u8]) -> (r: Result<RecordBatch, PyralogError>)
        ensures
            r is Ok <==> (batch_unwire(bytes@) matches Some(v) && v.compression <= 4),
            match r {
                Ok(batch) => batch_unwire(bytes@) == Some(batch.wire_view()),
                Err(e) => e is SerializationError,
            },
    {
        let fields = match bincode_read_batch(bytes) {
            Ok(f) => f,
            Err(e) => {
                return Err(PyralogError::SerializationError(bincode_error_text(&e)));
            },
        };
        let compression: CompressionType = match fields.3 {
            0 => CompressionType::Uncompressed,
            1 => CompressionType::Gzip,
            2 => CompressionType::Snappy,
            3 => CompressionType::Lz4,
            4 => CompressionType::Zstd,
            _ => {
                return Err(PyralogError::SerializationError(unknown_packing_text()));
            },
        };
        let ghost want = all_fields_view(fields.2@);
        let mut records: Vec<Record> = Vec::new();
        let mut rest = fields.2;
        let ghost n = rest@.len();
        // The fields are taken from the back, so the records come out in
        // reverse; they are turned round below.
        let mut back: Vec<Record> = Vec::new();
        while rest.len() > 0
            invariant
                n == want.len(),
                rest@.len() + back@.len() == n,
                all_fields_view(rest@) =~= want.subrange(0, rest@.len() as int),
                forall|j: int|
                    0 <= j < back@.len() ==> (#[trigger] back@[j])@ == want[n - 1 - j],
            decreases rest@.len(),
        {
            let ghost before = rest@;
            let f = rest.pop().unwrap();
            assert(fields_view(f) == all_fields_view(before)[before.len() - 1]);
            let rec = Record::from_wire(f);
            back.push(rec);
        }
        while back.len() > 0
            invariant
                n == want.len(),
                back@.len() + records@.len() == n,
                forall|j: int|
                    0 <= j < back@.len() ==> (#[trigger] back@[j])@ == want[n - 1 - j],
                records_view(records@) =~= want.subrange(0, records@.len() as int),
            decreases back@.len(),
        {
            let ghost turned = back@;
            let rec: Record = back.pop().unwrap();
            assert(rec == turned[turned.len() - 1]);
            let ghost before = records@;
            records.push(rec);
            assert(records_view(records@) =~= records_view(before).push(rec@));
        }
        assert(want.subrange(0, n as int) =~= want);
        Ok(
            RecordBatch {
                base_offset: LogOffset(fields.0),
                epoch: Epoch(fields.1),
                records,
                compression,
                crc: fields.4,
            },
        )
    }
}

/// The message for a batch that is packed in an unknown way.
fn unknown_packing_text() -> (r: String)
    ensures
        r@ == "Unknown compression"@,
{
    String::from_str("Unknown compression")
}

} // verus!
