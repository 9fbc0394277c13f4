//! The write cache: records that wait to be written to the tail segment.
//!
//! A record enters the cache together with its encoded form. The cache
//! accepts records as long as their encoded forms fit in its size limit,
//! and hands them back, oldest first, when it is drained.

use vstd::prelude::*;
use std::time::Instant;
use crate::base::clock::{elapsed_since, monotonic_now, whole_millis};
use crate::base::record::Record;

verus! {

/// The settings of a write cache.
#[derive(Debug, Clone, Copy, PartialEq, Eq, Structural)]
pub struct WriteCacheConfig {
    /// The number of encoded bytes the cache holds at most.
    pub max_size: usize,
    /// The longest time a record waits in the cache, in milliseconds.
    pub max_buffer_time_ms: u64,
    /// Whether the cache is used at all.
    pub enabled: bool,
}

impl Default for WriteCacheConfig {
    /// Sixteen mebibytes, ten milliseconds, enabled.
    fn default() -> (r: Self)
        ensures
            r.max_size == 16 * 1024 * 1024,
            r.max_buffer_time_ms == 10,
            r.enabled,
    {
        Self { max_size: 16 * 1024 * 1024, max_buffer_time_ms: 10, enabled: true }
    }
}

/// A record in the cache: the record and the bytes that will be written
/// for it.
#[derive(Debug)]
pub struct CachedRecord {
    pub record: Record,
    pub encoded: Vec<u8>,
}

/// The lengths of the encoded forms of `s`, added up.
pub open spec fn encoded_total(s: Seq<CachedRecord>) -> nat
    decreases s.len(),
{
    if s.len() == 0 {
        0
    } else {
        encoded_total(s.drop_last()) + s.last().encoded@.len()
    }
}

/// A bounded staging area for records on their way to a segment.
#[derive(Debug)]
pub struct WriteCache {
    config: WriteCacheConfig,
    entries: Vec<CachedRecord>,
    bytes: usize,
    oldest: Option<Instant>,
}

impl WriteCache {
    /// The records in the cache, oldest first.
    pub closed spec fn spec_entries(&self) -> Seq<CachedRecord> {
        self.entries@
    }

    /// The settings the cache was made with.
    pub closed spec fn spec_config(&self) -> WriteCacheConfig {
        self.config
    }

    /// The byte count is the sum of the encoded lengths, and within the
    /// size limit.
    pub closed spec fn wf(&self) -> bool {
        &&& self.bytes == encoded_total(self.entries@)
        &&& self.bytes <= self.config.max_size
    }

    /// The number of encoded bytes in the cache.
    pub open spec fn spec_bytes(&self) -> nat {
        encoded_total(self.spec_entries())
    }

    /// Whether a record whose encoded form has `len` bytes is accepted: the
    /// cache is enabled and the record fits under the size limit.
    pub open spec fn spec_accepts(&self, len: nat) -> bool {
        self.spec_config().enabled && self.spec_bytes() + len <= self.spec_config().max_size
    }

    /// Whether the cache is due for a flush when its oldest record has
    /// waited `age_ms` milliseconds: it is full, or it holds a record that
    /// has waited as long as records may.
    pub open spec fn spec_flush_due(&self, age_ms: u128) -> bool {
        self.spec_bytes() >= self.spec_config().max_size || (self.spec_entries().len() > 0
            && age_ms >= self.spec_config().max_buffer_time_ms)
    }

    /// An empty cache.
    pub fn new(config: WriteCacheConfig) -> (r: Self)
        ensures
            r.wf(),
            r.spec_entries() == Seq::<CachedRecord>::empty(),
            r.spec_config() == config,
    {
        Self { config, entries: Vec::new(), bytes: 0, oldest: None }
    }

    /// Whether a record whose encoded form has `len` bytes is accepted.
    pub fn accepts(&self, len: usize) -> (r: bool)
        requires
            self.wf(),
        ensures
            r == self.spec_accepts(len as nat),
    {
        self.config.enabled && len <= self.config.max_size - self.bytes
    }

    /// Takes a record in, if the cache accepts it. A record that is not
    /// accepted is dropped and the cache stays as it is.
    pub fn push(&mut self, entry: CachedRecord) -> (r: bool)
        requires
            old(self).wf(),
        ensures
            final(self).wf(),
            final(self).spec_config() == old(self).spec_config(),
            r == old(self).spec_accepts(entry.encoded@.len()),
            r ==> final(self).spec_entries() == old(self).spec_entries().push(entry),
            !r ==> final(self).spec_entries() == old(self).spec_entries(),
    {
        let len: usize = entry.encoded.len();
        if !self.accepts(len) {
            return false;
        }
        if self.entries.len() == 0 {
            self.oldest = Some(monotonic_now());
        }
        let ghost before = self.entries@;
        self.entries.push(entry);
        assert(self.entries@.drop_last() =~= before);
        self.bytes = self.bytes + len;
        true
    }

    /// Whether the cache is due for a flush, given the age of its oldest
    /// record.
    pub fn flush_due(&self, age_ms: u128) -> (r: bool)
        requires
            self.wf(),
        ensures
            r == self.spec_flush_due(age_ms),
    {
        self.bytes >= self.config.max_size || (self.entries.len() > 0 && age_ms
            >= self.config.max_buffer_time_ms as u128)
    }

    /// Whether the cache is due for a flush now. A full cache always is; an
    /// empty cache with room never is; in between the clock decides.
    pub fn should_flush(&self) -> (r: bool)
        requires
            self.wf(),
        ensures
            self.spec_bytes() >= self.spec_config().max_size ==> r,
            self.spec_entries().len() == 0 && self.spec_bytes() < self.spec_config().max_size
                ==> !r,
    {
        let age_ms: u128 = match &self.oldest {
            Some(t) => {
                let waited = elapsed_since(t);
                whole_millis(&waited)
            },
            None => 0,
        };
        self.flush_due(age_ms)
    }

    /// Hands out all records, oldest first, and leaves the cache empty.
    pub fn drain(&mut self) -> (r: Vec<CachedRecord>)
        ensures
            final(self).wf(),
            final(self).spec_config() == old(self).spec_config(),
            final(self).spec_entries() == Seq::<CachedRecord>::empty(),
            r@ == old(self).spec_entries(),
    {
        let mut out: Vec<CachedRecord> = Vec::new();
        std::mem::swap(&mut self.entries, &mut out);
        self.bytes = 0;
        self.oldest = None;
        out
    }

    /// The number of records in the cache.
    pub fn len(&self) -> (n: usize)
        ensures
            n == self.spec_entries().len(),
    {
        self.entries.len()
    }

    /// Whether the cache holds no record.
    pub fn is_empty(&self) -> (r: bool)
        ensures
            r == (self.spec_entries().len() == 0),
    {
        self.entries.len() == 0
    }

    /// The number of encoded bytes in the cache.
    pub fn size_bytes(&self) -> (n: usize)
        requires
            self.wf(),
        ensures
            n == self.spec_bytes(),
    {
        self.bytes
    }

    /// The length of the encoded form of the oldest record.
    pub fn first_len(&self) -> (r: Option<usize>)
        ensures
            r == (if self.spec_entries().len() == 0 {
                None
            } else {
                Some(self.spec_entries()[0].encoded@.len() as usize)
            }),
    {
        if self.entries.len() == 0 {
            None
        } else {
            Some(self.entries[0].encoded.len())
        }
    }
}

} // verus!
