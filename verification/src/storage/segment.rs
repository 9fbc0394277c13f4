//! Segments: the append-only files a partition's log is cut into.
//!
//! A `Segment` is the image of one file: the bytes the file holds, the
//! offset its first record has, and how much of it is known to be on disk.
//! The embedding program mirrors the image to the file; everything that is
//! decided about a segment is decided here.

use vstd::prelude::*;
use vstd::slice::slice_subrange;
use vstd::string::StringExecFns;
use bytes::Bytes;
use crate::base::buffer::{buffer_from_slice, bytes_of};
use crate::base::error::PyralogError;
use crate::base::offset::LogOffset;
use crate::storage::names::{
    lemma_segment_name_parses, parse_decimal, parse_u64, segment_file_name, segment_name, split_name,
    stem_of,
};

verus! {

/// The settings of a segment.
#[derive(Debug, Clone, Copy, PartialEq, Eq, Structural)]
pub struct SegmentConfig {
    /// The size in bytes that a segment may not exceed.
    pub max_size: u64,
    /// Whether reads go through a memory map of the file.
    pub use_mmap: bool,
    /// Whether every append is followed by a sync.
    pub sync_on_write: bool,
}

impl Default for SegmentConfig {
    /// One gibibyte, memory-mapped, no sync on write.
    fn default() -> (r: Self)
        ensures
            r.max_size == 1024 * 1024 * 1024,
            r.use_mmap,
            !r.sync_on_write,
    {
        Self { max_size: 1024 * 1024 * 1024, use_mmap: true, sync_on_write: false }
    }
}

/// The image of one segment file.
#[derive(Debug)]
pub struct Segment {
    base_offset: LogOffset,
    name: String,
    data: Vec<u8>,
    durable: usize,
    config: SegmentConfig,
}

impl Segment {
    /// The offset of the segment's first record.
    pub closed spec fn spec_base(&self) -> u64 {
        self.base_offset.0
    }

    /// The bytes of the segment.
    pub closed spec fn spec_data(&self) -> Seq<u8> {
        self.data@
    }

    /// The file name of the segment.
    pub closed spec fn spec_name(&self) -> Seq<char> {
        self.name@
    }

    /// How many of the segment's bytes are known to be on disk.
    pub closed spec fn spec_durable(&self) -> nat {
        self.durable as nat
    }

    /// The settings the segment was made with.
    pub closed spec fn spec_config(&self) -> SegmentConfig {
        self.config
    }

    /// The name spells the base offset, and no more bytes are durable than
    /// there are.
    pub closed spec fn wf(&self) -> bool {
        &&& self.durable <= self.data@.len()
        &&& parse_decimal(stem_of(self.name@)) == Some(self.base_offset.0)
    }

    /// The base offset of a sound segment can be read from its name.
    pub proof fn lemma_name(&self)
        requires
            self.wf(),
        ensures
            parse_decimal(stem_of(self.spec_name())) == Some(self.spec_base()),
    {
    }

    /// Whether `n` more bytes fit under the size limit.
    pub open spec fn spec_can_fit(&self, n: u64) -> bool {
        self.spec_data().len() + n <= self.spec_config().max_size
    }

    /// An empty segment that begins at `base_offset`, named after it.
    pub fn create(base_offset: LogOffset, config: SegmentConfig) -> (r: Self)
        ensures
            r.wf(),
            r.spec_base() == base_offset.0,
            r.spec_name() == segment_name(base_offset.0),
            r.spec_data() == Seq::<u8>::empty(),
            r.spec_durable() == 0,
            r.spec_config() == config,
    {
        proof {
            lemma_segment_name_parses(base_offset.0);
        }
        Self {
            base_offset,
            name: segment_file_name(base_offset.0),
            data: Vec::new(),
            durable: 0,
            config,
        }
    }

    /// The image of an existing segment file, given its name and content.
    /// The base offset is read from the name: the part before the
    /// extension has to be a decimal number. All of the content counts as
    /// durable.
    pub fn open(name: &str, data: Vec<u8>, config: SegmentConfig) -> (r: Result<Self, PyralogError>)
        ensures
            match r {
                Ok(s) => {
                    &&& s.wf()
                    &&& parse_decimal(stem_of(name@)) == Some(s.spec_base())
                    &&& s.spec_name() == name@
                    &&& s.spec_data() == data@
                    &&& s.spec_durable() == data@.len()
                    &&& s.spec_config() == config
                },
                Err(e) => parse_decimal(stem_of(name@)) is None && e is StorageError,
            },
    {
        let (stem, _) = split_name(name);
        match parse_u64(stem) {
            Some(base) => {
                let durable: usize = data.len();
                Ok(
                    Self {
                        base_offset: LogOffset(base),
                        name: String::from_str(name),
                        data,
                        durable,
                        config,
                    },
                )
            },
            None => Err(PyralogError::StorageError(String::from_str("Invalid offset in filename"))),
        }
    }

    /// Writes `data` at the end of the segment and returns the position at
    /// which it begins. A segment that would grow beyond its size limit is
    /// full and refuses. With sync on write the new bytes count as durable.
    pub fn append(&mut self, data: &[u8]) -> (r: Result<u64, PyralogError>)
        requires
            old(self).wf(),
        ensures
            final(self).wf(),
            final(self).spec_base() == old(self).spec_base(),
            final(self).spec_name() == old(self).spec_name(),
            final(self).spec_config() == old(self).spec_config(),
            match r {
                Ok(position) => {
                    &&& old(self).spec_data().len() + data@.len() <= old(self).spec_config().max_size
                    &&& position == old(self).spec_data().len()
                    &&& final(self).spec_data() == old(self).spec_data() + data@
                    &&& final(self).spec_durable() == if old(self).spec_config().sync_on_write {
                        final(self).spec_data().len()
                    } else {
                        old(self).spec_durable()
                    }
                },
                Err(e) => {
                    &&& old(self).spec_data().len() + data@.len() > old(self).spec_config().max_size
                    &&& e is StorageError
                    &&& final(self).spec_data() == old(self).spec_data()
                    &&& final(self).spec_durable() == old(self).spec_durable()
                },
            },
    {
        let size: usize = self.data.len();
        if size as u128 + data.len() as u128 > self.config.max_size as u128 {
            return Err(PyralogError::StorageError(String::from_str("Segment is full")));
        }
        self.data.extend_from_slice(data);
        if self.config.sync_on_write {
            self.durable = self.data.len();
        }
        Ok(size as u64)
    }

    /// The `length` bytes that begin at `offset`. A range that reaches
    /// beyond the end of the segment is refused.
    pub fn read(&self, offset: u64, length: usize) -> (r: Result<Bytes, PyralogError>)
        ensures
            match r {
                Ok(b) => {
                    &&& offset + length <= self.spec_data().len()
                    &&& bytes_of(b) == self.spec_data().subrange(offset as int, offset + length)
                },
                Err(e) => offset + length > self.spec_data().len() && e == PyralogError::InvalidOffset(
                    offset,
                ),
            },
    {
        let size: usize = self.data.len();
        if offset as u128 + length as u128 > size as u128 {
            return Err(PyralogError::InvalidOffset(offset));
        }
        let start: usize = offset as usize;
        let part: &[u8] = slice_subrange(self.data.as_slice(), start, start + length);
        Ok(buffer_from_slice(part))
    }

    /// Records that everything written so far has reached the disk.
    pub fn sync(&mut self)
        requires
            old(self).wf(),
        ensures
            final(self).wf(),
            final(self).spec_durable() == old(self).spec_data().len(),
            final(self).spec_base() == old(self).spec_base(),
            final(self).spec_name() == old(self).spec_name(),
            final(self).spec_data() == old(self).spec_data(),
            final(self).spec_config() == old(self).spec_config(),
    {
        self.durable = self.data.len();
    }

    /// The bytes that have not reached the disk yet.
    pub fn unsynced(&self) -> (r: &[u8])
        requires
            self.wf(),
        ensures
            r@ == self.spec_data().subrange(self.spec_durable() as int, self.spec_data().len() as int),
    {
        slice_subrange(self.data.as_slice(), self.durable, self.data.len())
    }

    /// The offset of the segment's first record.
    pub fn base_offset(&self) -> (r: LogOffset)
        ensures
            r.0 == self.spec_base(),
    {
        self.base_offset
    }

    /// The number of bytes in the segment.
    pub fn size(&self) -> (r: u64)
        ensures
            r == self.spec_data().len(),
    {
        self.data.len() as u64
    }

    /// Whether `size` more bytes fit under the size limit.
    pub fn can_fit(&self, size: u64) -> (r: bool)
        ensures
            r == self.spec_can_fit(size),
    {
        self.data.len() as u128 + size as u128 <= self.config.max_size as u128
    }

    /// The file name of the segment, relative to its partition's directory.
    pub fn path(&self) -> (r: &str)
        ensures
            r@ == self.spec_name(),
    {
        self.name.as_str()
    }

    /// All bytes of the segment.
    pub fn bytes(&self) -> (r: &[u8])
        ensures
            r@ == self.spec_data(),
    {
        self.data.as_slice()
    }
}

} // verus!
