//! The log of one partition: an ordered run of segments with their indexes,
//! a write cache in front of the last segment, and the counter that hands
//! out offsets.
//!
//! Offsets are dense: a segment that begins at offset `b` and holds `n`
//! records holds the offsets `b .. b + n`, one index entry each, and the
//! next segment begins at `b + n`. Records that wait in the cache have the
//! offsets that follow the last segment's.

use vstd::prelude::*;
use vstd::string::StringExecFns;
use crate::base::buffer::buffer_as_slice;
use crate::base::error::PyralogError;
use crate::base::offset::{LogOffset, OffsetRange};
use crate::base::record::{Record, RecordBatch, RecordView, records_view};
use crate::base::wire::{record_encodes, record_unwire, record_wire};
use vstd::slice::slice_to_vec;
use crate::storage::index::{Index, IndexEntry, entries_of_image, lemma_map_of_sorted};
use crate::storage::names::{parse_decimal, segment_name, stem_of};
use crate::storage::segment::{Segment, SegmentConfig};
use crate::storage::write_cache::{CachedRecord, WriteCache, WriteCacheConfig, encoded_total};

verus! {

/// The settings of a partition's log.
#[derive(Debug, Clone, Copy, PartialEq, Eq, Structural)]
pub struct LogStorageConfig {
    pub segment_config: SegmentConfig,
    pub cache_config: WriteCacheConfig,
}

impl Default for LogStorageConfig {
    fn default() -> (r: Self)
        ensures
            r.segment_config.max_size == 1024 * 1024 * 1024,
            r.segment_config.use_mmap,
            !r.segment_config.sync_on_write,
            r.cache_config.max_size == 16 * 1024 * 1024,
            r.cache_config.max_buffer_time_ms == 10,
            r.cache_config.enabled,
    {
        Self { segment_config: SegmentConfig::default(), cache_config: WriteCacheConfig::default() }
    }
}

/// A segment together with its index.
#[derive(Debug)]
pub struct SegmentWithIndex {
    pub segment: Segment,
    pub index: Index,
}

impl SegmentWithIndex {
    /// The offset of the segment's first record.
    pub open spec fn base(&self) -> u64 {
        self.segment.spec_base()
    }

    /// The number of records the index knows.
    pub open spec fn count(&self) -> nat {
        self.index.spec_entries().len()
    }

    /// Segment and index are sound, the index lists the offsets from the
    /// base on without a gap, and every entry points into the segment.
    pub open spec fn wf(&self) -> bool {
        &&& self.segment.wf()
        &&& self.index.wf()
        &&& self.base() + self.count() <= u64::MAX
        &&& forall|j: int|
            0 <= j < self.count() ==> {
                let e = #[trigger] self.index.spec_entries()[j];
                e.offset.0 == self.base() + j && e.position + e.size
                    <= self.segment.spec_data().len()
            }
    }

    /// The bytes of the record at offset `k`, if this segment holds it.
    pub open spec fn record_bytes(&self, k: u64) -> Option<Seq<u8>> {
        if self.base() <= k < self.base() + self.count() {
            let e = self.index.spec_entries()[k - self.base()];
            Some(self.segment.spec_data().subrange(e.position as int, e.position + e.size))
        } else {
            None
        }
    }
}

/// Every segment but the last holds a record, and each segment begins
/// where the one before it ends.
pub open spec fn chained(segs: Seq<SegmentWithIndex>) -> bool {
    forall|i: int|
        0 <= i < segs.len() - 1 ==> (#[trigger] segs[i]).count() >= 1 && segs[i + 1].base()
            == segs[i].base() + segs[i].count()
}

/// The segments of a log are sound: there is at least one, each is sound
/// and made with the log's settings, and they are chained.
pub open spec fn segments_ok(segs: Seq<SegmentWithIndex>, config: SegmentConfig) -> bool {
    &&& segs.len() >= 1
    &&& forall|i: int|
        0 <= i < segs.len() ==> (#[trigger] segs[i]).wf() && segs[i].segment.spec_config() == config
    &&& chained(segs)
}

/// The first offset that no segment holds yet.
pub open spec fn end_of(segs: Seq<SegmentWithIndex>) -> int {
    segs.last().base() + segs.last().count()
}

/// The position of the last segment before `upto` that begins at or before
/// offset `k`, or -1.
pub open spec fn segment_of(segs: Seq<SegmentWithIndex>, k: u64, upto: int) -> int
    decreases upto,
{
    if upto <= 0 || upto > segs.len() {
        -1
    } else if segs[upto - 1].base() <= k {
        upto - 1
    } else {
        segment_of(segs, k, upto - 1)
    }
}

/// The bytes written for offset `k`, if a segment holds that offset.
pub open spec fn stored_bytes(segs: Seq<SegmentWithIndex>, k: u64) -> Option<Seq<u8>> {
    let i = segment_of(segs, k, segs.len() as int);
    if i < 0 {
        None
    } else {
        segs[i].record_bytes(k)
    }
}

/// `short` is the beginning of `long`.
pub open spec fn begins_with<T>(long: Seq<T>, short: Seq<T>) -> bool {
    short.len() <= long.len() && long.subrange(0, short.len() as int) == short
}

/// What one write makes of the segments. Where the last segment has room
/// for `encoded`, the bytes go to its end and its index gets an entry for
/// them. Where it has not, the segments stay as they are, and a new
/// segment that begins at `offset` and is named after it follows them,
/// with `encoded` as its only record.
pub open spec fn written(
    before: Seq<SegmentWithIndex>,
    after: Seq<SegmentWithIndex>,
    offset: u64,
    encoded: Seq<u8>,
) -> bool {
    let n = before.len() as int;
    let tail = after.last();
    if before.last().segment.spec_can_fit(encoded.len() as u64) {
        &&& after.len() == n
        &&& after.subrange(0, n - 1) == before.subrange(0, n - 1)
        &&& tail.base() == before.last().base()
        &&& tail.segment.spec_name() == before.last().segment.spec_name()
        &&& tail.segment.spec_data() == before.last().segment.spec_data() + encoded
        &&& tail.index.spec_entries() == before.last().index.spec_entries().push(
            IndexEntry {
                offset: LogOffset(offset),
                position: before.last().segment.spec_data().len() as u64,
                size: encoded.len() as u32,
            },
        )
    } else {
        &&& after.len() == n + 1
        &&& after.subrange(0, n) == before
        &&& tail.base() == offset
        &&& tail.segment.spec_name() == segment_name(offset)
        &&& tail.segment.spec_data() == encoded
        &&& tail.index.spec_entries() == seq![
            IndexEntry { offset: LogOffset(offset), position: 0, size: encoded.len() as u32 },
        ]
    }
}

/// The segments `after` come from `before` by writing at the end only:
/// every segment that had a successor is as it was, the segment that was
/// last has kept its name and base and what it held, with more behind it
/// at most, and new segments may follow.
pub open spec fn grown(before: Seq<SegmentWithIndex>, after: Seq<SegmentWithIndex>) -> bool {
    let n = before.len() as int;
    &&& n >= 1
    &&& after.len() >= n
    &&& after.subrange(0, n - 1) == before.subrange(0, n - 1)
    &&& after[n - 1].base() == before[n - 1].base()
    &&& after[n - 1].segment.spec_name() == before[n - 1].segment.spec_name()
    &&& begins_with(after[n - 1].segment.spec_data(), before[n - 1].segment.spec_data())
    &&& begins_with(after[n - 1].index.spec_entries(), before[n - 1].index.spec_entries())
}

/// One write lets the segments grow.
pub proof fn lemma_written_grown(
    before: Seq<SegmentWithIndex>,
    after: Seq<SegmentWithIndex>,
    offset: u64,
    encoded: Seq<u8>,
)
    requires
        before.len() >= 1,
        written(before, after, offset, encoded),
    ensures
        grown(before, after),
{
    let n = before.len() as int;
    if before.last().segment.spec_can_fit(encoded.len() as u64) {
        let d = before.last().segment.spec_data();
        assert((d + encoded).subrange(0, d.len() as int) =~= d);
        let e = before.last().index.spec_entries();
        assert(after.last().index.spec_entries().subrange(0, e.len() as int) =~= e);
    } else {
        assert(after.subrange(0, n - 1) =~= before.subrange(0, n - 1)) by {
            assert forall|j: int| 0 <= j < n - 1 implies after[j] == before[j] by {
                assert(after.subrange(0, n)[j] == before[j]);
            }
        }
        assert(after[n - 1] == after.subrange(0, n)[n - 1]);
        let d = before.last().segment.spec_data();
        assert(d.subrange(0, d.len() as int) =~= d);
        let e = before.last().index.spec_entries();
        assert(e.subrange(0, e.len() as int) =~= e);
    }
}

/// Segments that have grown twice have grown.
pub proof fn lemma_grown_twice(
    a: Seq<SegmentWithIndex>,
    b: Seq<SegmentWithIndex>,
    c: Seq<SegmentWithIndex>,
)
    requires
        grown(a, b),
        grown(b, c),
    ensures
        grown(a, c),
{
    let n = a.len() as int;
    let m = b.len() as int;
    assert(c.subrange(0, n - 1) =~= a.subrange(0, n - 1)) by {
        assert forall|j: int| 0 <= j < n - 1 implies c[j] == a[j] by {
            assert(c.subrange(0, m - 1)[j] == b.subrange(0, m - 1)[j]);
            assert(b.subrange(0, n - 1)[j] == a.subrange(0, n - 1)[j]);
        }
    }
    if m > n {
        assert(c.subrange(0, m - 1)[n - 1] == b.subrange(0, m - 1)[n - 1]);
    } else {
        let da = a[n - 1].segment.spec_data();
        let db = b[n - 1].segment.spec_data();
        let dc = c[n - 1].segment.spec_data();
        assert(dc.subrange(0, da.len() as int) =~= db.subrange(0, da.len() as int)) by {
            assert(dc.subrange(0, db.len() as int) == db);
            assert forall|i: int| 0 <= i < da.len() implies dc[i] == db[i] by {
                assert(dc.subrange(0, db.len() as int)[i] == db[i]);
            }
        }
        let ea = a[n - 1].index.spec_entries();
        let eb = b[n - 1].index.spec_entries();
        let ec = c[n - 1].index.spec_entries();
        assert(ec.subrange(0, ea.len() as int) =~= eb.subrange(0, ea.len() as int)) by {
            assert(ec.subrange(0, eb.len() as int) == eb);
            assert forall|i: int| 0 <= i < ea.len() implies ec[i] == eb[i] by {
                assert(ec.subrange(0, eb.len() as int)[i] == eb[i]);
            }
        }
    }
}

/// Segments have grown from themselves.
pub proof fn lemma_grown_same(a: Seq<SegmentWithIndex>)
    requires
        a.len() >= 1,
    ensures
        grown(a, a),
{
    let n = a.len() as int;
    let d = a[n - 1].segment.spec_data();
    assert(d.subrange(0, d.len() as int) =~= d);
    let e = a[n - 1].index.spec_entries();
    assert(e.subrange(0, e.len() as int) =~= e);
}

/// In a chain the bases grow strictly.
pub proof fn lemma_bases_increase(segs: Seq<SegmentWithIndex>, i: int, j: int)
    requires
        chained(segs),
        0 <= i < j < segs.len(),
    ensures
        segs[i].base() + segs[i].count() <= segs[j].base(),
        segs[i].base() < segs[j].base(),
    decreases j - i,
{
    if i + 1 < j {
        lemma_bases_increase(segs, i, j - 1);
        assert(segs[j - 1].count() >= 1);
    }
}

/// The segment found for an offset is the last one that begins at or
/// before it.
pub proof fn lemma_segment_of(segs: Seq<SegmentWithIndex>, k: u64, upto: int)
    requires
        0 <= upto <= segs.len(),
    ensures
        -1 <= segment_of(segs, k, upto) < upto,
        segment_of(segs, k, upto) >= 0 ==> segs[segment_of(segs, k, upto)].base() <= k,
        forall|j: int| segment_of(segs, k, upto) < j < upto ==> (#[trigger] segs[j]).base() > k,
    decreases upto,
{
    if upto > 0 && segs[upto - 1].base() > k {
        lemma_segment_of(segs, k, upto - 1);
    }
}

/// In sound segments an offset is stored exactly when it lies between the
/// first segment's base and the end.
pub proof fn lemma_stored_range(segs: Seq<SegmentWithIndex>, config: SegmentConfig, k: u64)
    requires
        segments_ok(segs, config),
    ensures
        stored_bytes(segs, k) is Some <==> segs[0].base() <= k < end_of(segs),
{
    let n = segs.len() as int;
    lemma_segment_of(segs, k, n);
    let i = segment_of(segs, k, n);
    if i >= 0 {
        if i < n - 1 {
            assert(segs[i + 1].base() > k);
            assert(segs[i].count() >= 1 && segs[i + 1].base() == segs[i].base() + segs[i].count());
            lemma_bases_increase(segs, i, n - 1);
        }
        if i > 0 {
            lemma_bases_increase(segs, 0, i);
        }
    } else {
        assert(segs[0].base() > k);
    }
}

/// The log of one partition.
#[derive(Debug)]
pub struct LogStorage {
    segments: Vec<SegmentWithIndex>,
    write_cache: WriteCache,
    config: LogStorageConfig,
    current_offset: LogOffset,
}

impl LogStorage {
    /// The segments, oldest first.
    pub closed spec fn spec_segments(&self) -> Seq<SegmentWithIndex> {
        self.segments@
    }

    /// The records that wait in the cache, oldest first.
    pub closed spec fn spec_pending(&self) -> Seq<CachedRecord> {
        self.write_cache.spec_entries()
    }

    /// The offset that the next record gets.
    pub closed spec fn spec_next(&self) -> u64 {
        self.current_offset.0
    }

    /// The settings the log was made with.
    pub closed spec fn spec_config(&self) -> LogStorageConfig {
        self.config
    }

    /// The cache is sound and made with the log's settings.
    pub closed spec fn cache_ok(&self) -> bool {
        self.write_cache.wf() && self.write_cache.spec_config() == self.config.cache_config
    }

    /// Whether the last segment can take a record of `len` bytes, as it is
    /// or after a roll. A segment without records cannot be rolled.
    pub open spec fn tail_takes(segs: Seq<SegmentWithIndex>, max_size: u64, len: nat) -> bool {
        segs.last().segment.spec_data().len() + len <= max_size || segs.last().count() >= 1
    }

    /// The invariant of the log: sound segments, a sound cache whose
    /// records carry the offsets that follow the last segment's and fit in
    /// a segment, and a counter that points behind the last of them.
    pub closed spec fn wf(&self) -> bool {
        let segs = self.spec_segments();
        let pend = self.spec_pending();
        &&& segments_ok(segs, self.spec_config().segment_config)
        &&& self.cache_ok()
        &&& forall|j: int|
            0 <= j < pend.len() ==> {
                &&& (#[trigger] pend[j]).record.offset.0 == end_of(segs) + j
                &&& pend[j].encoded@.len() <= self.spec_config().segment_config.max_size
                &&& pend[j].encoded@.len() <= u32::MAX
            }
        &&& pend.len() > 0 ==> Self::tail_takes(segs, self.spec_config().segment_config.max_size, pend[0].encoded@.len())
        &&& self.spec_next() == end_of(segs) + pend.len()
    }

    /// The bytes written for offset `k`, if a segment holds that offset.
    pub open spec fn stored(&self, k: u64) -> Option<Seq<u8>> {
        stored_bytes(self.spec_segments(), k)
    }

    /// The bytes that belong to offset `k`, whether a segment holds them
    /// already or they still wait in the cache.
    pub open spec fn logical(&self, k: u64) -> Option<Seq<u8>> {
        let end = end_of(self.spec_segments());
        if k < end {
            self.stored(k)
        } else if k - end < self.spec_pending().len() {
            Some(self.spec_pending()[k - end].encoded@)
        } else {
            None
        }
    }

    /// The record that a read at offset `k` finds.
    pub open spec fn readable(&self, k: u64) -> Option<RecordView> {
        match self.stored(k) {
            Some(b) => record_unwire(b),
            None => None,
        }
    }

    /// The first offset of the log.
    pub open spec fn first_offset(&self) -> u64 {
        self.spec_segments()[0].base()
    }

    /// Whether a record whose encoded form has `len` bytes can be taken:
    /// an offset is left for it, it fits in a segment and in an index
    /// entry, and the last segment has room for it or can be rolled.
    pub open spec fn can_take(&self, len: nat) -> bool {
        &&& self.spec_next() < u64::MAX
        &&& len <= self.spec_config().segment_config.max_size
        &&& len <= u32::MAX
        &&& self.spec_pending().len() == 0 ==> Self::tail_takes(self.spec_segments(), self.spec_config().segment_config.max_size, len)
    }

    /// The bytes in the last segment that the next record has to fit
    /// behind: none where records wait in the cache or the last segment
    /// holds a record, since it can then be rolled; else all of its bytes.
    pub open spec fn tail_used(&self) -> nat {
        if self.spec_pending().len() > 0 || self.spec_segments().last().count() >= 1 {
            0
        } else {
            self.spec_segments().last().segment.spec_data().len()
        }
    }

    /// Whether the cache takes a record whose encoded form has `len` bytes:
    /// it is switched on and has room for them.
    pub open spec fn cache_takes(&self, len: nat) -> bool {
        self.spec_config().cache_config.enabled && encoded_total(self.spec_pending()) + len
            <= self.spec_config().cache_config.max_size
    }

    /// A log with one empty segment that begins at offset zero.
    pub fn create(config: LogStorageConfig) -> (r: Self)
        ensures
            r.wf(),
            r.spec_config() == config,
            r.spec_next() == 0,
            r.first_offset() == 0,
            r.spec_segments().len() == 1,
            r.spec_segments()[0].count() == 0,
            r.spec_segments()[0].segment.spec_data().len() == 0,
            r.spec_pending().len() == 0,
    {
        let segment = Segment::create(LogOffset::zero(), config.segment_config);
        let index = Index::create();
        let mut segments: Vec<SegmentWithIndex> = Vec::new();
        segments.push(SegmentWithIndex { segment, index });
        Self {
            segments,
            write_cache: WriteCache::new(config.cache_config),
            config,
            current_offset: LogOffset::zero(),
        }
    }

    /// The first offset behind the last segment.
    fn segments_end(&self) -> (r: u64)
        requires
            segments_ok(self.segments@, self.config.segment_config),
        ensures
            r == end_of(self.segments@),
    {
        let n: usize = self.segments.len();
        let tail: &SegmentWithIndex = &self.segments[n - 1];
        tail.segment.base_offset().0 + tail.index.len() as u64
    }

    /// Whether the last segment can take `len` more bytes, as it is or
    /// after a roll.
    fn tail_can_take(&self, len: usize) -> (r: bool)
        requires
            segments_ok(self.segments@, self.config.segment_config),
        ensures
            r == Self::tail_takes(self.segments@, self.config.segment_config.max_size, len as nat),
    {
        let n: usize = self.segments.len();
        let tail: &SegmentWithIndex = &self.segments[n - 1];
        tail.segment.can_fit(len as u64) || tail.index.len() >= 1
    }

    /// Writes the bytes of the record at `offset` to the last segment and
    /// enters them in its index. A last segment that is too full for them
    /// is left as it is, and a new one that begins at `offset` takes them.
    fn write_encoded(&mut self, offset: u64, encoded: &[u8])
        requires
            segments_ok(old(self).segments@, old(self).config.segment_config),
            offset == end_of(old(self).segments@),
            offset < u64::MAX,
            encoded@.len() <= old(self).config.segment_config.max_size,
            encoded@.len() <= u32::MAX,
            Self::tail_takes(old(self).segments@, old(self).config.segment_config.max_size, encoded@.len()),
        ensures
            segments_ok(final(self).segments@, final(self).config.segment_config),
            final(self).config == old(self).config,
            final(self).write_cache == old(self).write_cache,
            final(self).current_offset == old(self).current_offset,
            end_of(final(self).segments@) == offset + 1,
            final(self).segments@.last().count() >= 1,
            final(self).segments@[0].base() == old(self).segments@[0].base(),
            stored_bytes(final(self).segments@, offset) == Some(encoded@),
            forall|k: u64|
                k != offset ==> #[trigger] stored_bytes(final(self).segments@, k) == stored_bytes(
                    old(self).segments@,
                    k,
                ),
            final(self).segments@.len() == old(self).segments@.len() + (if old(
                self,
            ).segments@.last().segment.spec_can_fit(encoded@.len() as u64) {
                0int
            } else {
                1int
            }),
            written(old(self).segments@, final(self).segments@, offset, encoded@),
            grown(old(self).segments@, final(self).segments@),
    {
        let ghost segs0 = self.segments@;
        let ghost config = self.config.segment_config;
        let n: usize = self.segments.len();
        let len: usize = encoded.len();
        let fits: bool = self.segments[n - 1].segment.can_fit(len as u64);
        if !fits {
            // Roll: the new segment begins at the offset about to be written.
            let segment = Segment::create(LogOffset(offset), self.config.segment_config);
            let index = Index::create();
            self.segments.push(SegmentWithIndex { segment, index });
            proof {
                let segs1 = self.segments@;
                assert forall|i: int| 0 <= i < segs1.len() - 1 implies (#[trigger] segs1[i]).count()
                    >= 1 && segs1[i + 1].base() == segs1[i].base() + segs1[i].count() by {
                    if i < segs0.len() - 1 {
                        assert(segs1[i] == segs0[i] && segs1[i + 1] == segs0[i + 1]);
                        assert(segs0[i].count() >= 1);
                    }
                }
                assert forall|i: int| 0 <= i < segs1.len() implies (#[trigger] segs1[i]).wf()
                    && segs1[i].segment.spec_config() == config by {
                    if i < segs0.len() {
                        assert(segs1[i] == segs0[i]);
                        assert(segs0[i].wf());
                    }
                }
                assert forall|k: u64| #[trigger]
                    stored_bytes(segs1, k) == stored_bytes(segs0, k) by {
                    lemma_stored_range(segs0, config, k);
                    lemma_segment_of(segs0, k, segs0.len() as int);
                    if k < offset {
                        lemma_segment_of_prefix(segs1, segs0, k, segs0.len() as int);
                    }
                }
            }
        }
        let ghost segs1 = self.segments@;
        let m: usize = self.segments.len();
        let mut tail: SegmentWithIndex = self.segments.pop().unwrap();
        let ghost tail0 = tail;
        assert(tail0 == segs1[m - 1]);
        assert(tail0.wf());
        let position: u64 = match tail.segment.append(encoded) {
            Ok(p) => p,
            Err(_) => 0,
        };
        proof {
            tail0.index.lemma_wf();
            assert forall|i: int| 0 <= i < tail0.index.spec_entries().len() implies (
            #[trigger] tail0.index.spec_entries()[i]).offset.0 < offset by {
                assert(tail0.index.spec_entries()[i].offset.0 == tail0.base() + i);
            }
        }
        tail.index.append(LogOffset(offset), position, len as u32);
        let ghost e = IndexEntry { offset: LogOffset(offset), position, size: len as u32 };
        proof {
            assert(tail.index.spec_entries() == tail0.index.spec_entries().push(e));
            assert(tail.count() == tail0.count() + 1);
            assert forall|j: int| 0 <= j < tail.count() implies {
                let x = #[trigger] tail.index.spec_entries()[j];
                x.offset.0 == tail.base() + j && x.position + x.size
                    <= tail.segment.spec_data().len()
            } by {
                if j < tail0.count() {
                    assert(tail.index.spec_entries()[j] == tail0.index.spec_entries()[j]);
                }
            }
            assert(tail.wf());
            assert(tail.record_bytes(offset) == Some(encoded@)) by {
                assert(tail.segment.spec_data().subrange(position as int, position + len)
                    =~= encoded@);
            }
            assert forall|k: u64| k != offset implies #[trigger] tail.record_bytes(k)
                == tail0.record_bytes(k) by {
                if tail0.base() <= k < tail0.base() + tail0.count() {
                    let x = tail0.index.spec_entries()[k - tail0.base()];
                    assert(tail.index.spec_entries()[k - tail0.base()] == x);
                    assert(tail.segment.spec_data().subrange(
                        x.position as int,
                        x.position + x.size,
                    ) =~= tail0.segment.spec_data().subrange(x.position as int, x.position + x.size));
                }
            }
        }
        self.segments.push(tail);
        proof {
            let segs2 = self.segments@;
            assert(segs2 =~= segs1.update(m - 1, tail));
            assert forall|i: int| 0 <= i < segs2.len() implies (#[trigger] segs2[i]).wf()
                && segs2[i].segment.spec_config() == config by {
                if i < m - 1 {
                    assert(segs2[i] == segs1[i]);
                    assert(segs1[i].wf());
                }
            }
            assert forall|i: int| 0 <= i < segs2.len() - 1 implies (#[trigger] segs2[i]).count()
                >= 1 && segs2[i + 1].base() == segs2[i].base() + segs2[i].count() by {
                assert(segs2[i] == segs1[i]);
                assert(segs1[i].count() >= 1);
                if i + 1 < m - 1 {
                    assert(segs2[i + 1] == segs1[i + 1]);
                }
            }
            assert forall|k: u64| #[trigger]
                stored_bytes(segs2, k) == (if k == offset {
                    Some(encoded@)
                } else {
                    stored_bytes(segs1, k)
                }) by {
                lemma_segment_of_same_bases(segs2, segs1, k, m as int);
                let i = segment_of(segs1, k, m as int);
                lemma_segment_of(segs1, k, m as int);
                if i >= 0 && i < m - 1 {
                    assert(segs2[i] == segs1[i]);
                    lemma_bases_increase(segs1, i, m - 1);
                }
            }
            if fits {
                assert(segs1 == segs0);
                assert(segs2.subrange(0, m - 1) =~= segs0.subrange(0, m - 1));
            } else {
                assert(segs2.subrange(0, m - 1) =~= segs0);
                assert(tail.segment.spec_data() =~= encoded@);
                assert(tail.index.spec_entries() =~= seq![e]);
            }
            assert(written(segs0, segs2, offset, encoded@));
            lemma_written_grown(segs0, segs2, offset, encoded@);
        }
    }

    /// Writes every record of the cache to the segments and leaves the
    /// cache empty.
    fn flush_cache(&mut self)
        requires
            old(self).wf(),
        ensures
            final(self).wf(),
            final(self).spec_config() == old(self).spec_config(),
            final(self).spec_next() == old(self).spec_next(),
            final(self).spec_pending().len() == 0,
            final(self).first_offset() == old(self).first_offset(),
            final(self).spec_segments().len() >= old(self).spec_segments().len(),
            old(self).spec_pending().len() > 0 ==> final(self).spec_segments().last().count() >= 1,
            old(self).spec_segments().last().count() >= 1 ==> final(self).spec_segments().last().count() >= 1,
            old(self).spec_pending().len() == 0 ==> final(self).spec_segments() == old(
                self,
            ).spec_segments(),
            grown(old(self).spec_segments(), final(self).spec_segments()),
            forall|k: u64| #[trigger] final(self).logical(k) == old(self).logical(k),
    {
        let ghost s0 = *self;
        let ghost end0 = end_of(self.segments@);
        proof {
            lemma_grown_same(self.segments@);
        }
        let entries: Vec<CachedRecord> = self.write_cache.drain();
        let n: usize = entries.len();
        let mut j: usize = 0;
        while j < n
            invariant
                j <= n,
                n == entries@.len(),
                entries@ == s0.spec_pending(),
                s0.wf(),
                segments_ok(self.segments@, self.config.segment_config),
                self.config == s0.config,
                self.current_offset == s0.current_offset,
                self.write_cache.wf(),
                self.write_cache.spec_config() == self.config.cache_config,
                self.write_cache.spec_entries().len() == 0,
                end0 == end_of(s0.segments@),
                end_of(self.segments@) == end0 + j,
                self.segments@[0].base() == s0.segments@[0].base(),
                self.segments@.len() >= s0.segments@.len(),
                j > 0 ==> self.segments@.last().count() >= 1,
                j == 0 ==> self.segments@ == s0.segments@,
                grown(s0.segments@, self.segments@),
                forall|k: u64|
                    k < end0 + j ==> #[trigger] stored_bytes(self.segments@, k) == s0.logical(k),
            decreases n - j,
        {
            let ghost segs_before = self.segments@;
            let ghost c = entries@[j as int];
            assert(c.record.offset.0 == end0 + j);
            let entry: &CachedRecord = &entries[j];
            self.write_encoded(entry.record.offset.0, entry.encoded.as_slice());
            proof {
                lemma_grown_twice(s0.segments@, segs_before, self.segments@);
                assert forall|k: u64| k < end0 + j + 1 implies #[trigger] stored_bytes(
                    self.segments@,
                    k,
                ) == s0.logical(k) by {
                    if k < end0 + j {
                        assert(stored_bytes(segs_before, k) == s0.logical(k));
                    }
                }
            }
            j += 1;
        }
        proof {
            assert forall|k: u64| #[trigger] self.logical(k) == s0.logical(k) by {
                if k >= end0 + n {
                    lemma_stored_range(self.segments@, self.config.segment_config, k);
                    lemma_stored_range(s0.segments@, s0.config.segment_config, k);
                }
            }
        }
    }
}

impl LogStorage {
    /// The position of the last segment that begins at or before `k`.
    fn find_segment(&self, k: u64) -> (r: Option<usize>)
        requires
            segments_ok(self.segments@, self.config.segment_config),
        ensures
            match r {
                Some(i) => i == segment_of(self.segments@, k, self.segments@.len() as int) && i
                    < self.segments@.len(),
                None => segment_of(self.segments@, k, self.segments@.len() as int) == -1,
            },
    {
        let ghost segs = self.segments@;
        let n: usize = self.segments.len();
        proof {
            lemma_segment_of(segs, k, n as int);
        }
        if self.segments[0].segment.base_offset().0 > k {
            proof {
                let i = segment_of(segs, k, n as int);
                if i > 0 {
                    lemma_bases_increase(segs, 0, i);
                }
            }
            return None;
        }
        let mut lo: usize = 0;
        let mut hi: usize = n;
        while hi - lo > 1
            invariant
                lo < hi <= n,
                n == segs.len(),
                segs == self.segments@,
                chained(segs),
                segs[lo as int].base() <= k,
                forall|j: int| hi <= j < n ==> (#[trigger] segs[j]).base() > k,
            decreases hi - lo,
        {
            let mid: usize = lo + (hi - lo) / 2;
            if self.segments[mid].segment.base_offset().0 <= k {
                lo = mid;
            } else {
                assert forall|j: int| mid <= j < n implies (#[trigger] segs[j]).base() > k by {
                    if j > mid {
                        lemma_bases_increase(segs, mid as int, j);
                    }
                }
                hi = mid;
            }
        }
        proof {
            let i = segment_of(segs, k, n as int);
            if i < lo {
                assert(segs[lo as int].base() > k);
            }
        }
        Some(lo)
    }

    /// The record `r` with the next offset stamped on it.
    pub open spec fn stamp(&self, r: RecordView) -> RecordView {
        RecordView { offset: self.spec_next(), ..r }
    }

    /// Whether the log takes the record `r`: with the next offset stamped
    /// on, it encodes, and the log can take a record of that length.
    pub open spec fn takes(&self, r: RecordView) -> bool {
        record_encodes(self.stamp(r)) && self.can_take(record_wire(self.stamp(r)).len())
    }

    /// Takes a record in: gives it the next offset, encodes it, and puts it
    /// in the cache or writes it to the last segment. What the log holds
    /// for the new offset decodes to the record as it was handed in, with
    /// the offset stamped on it; every other offset keeps what it had. A
    /// record that the cache does not take is in a segment afterwards, where
    /// a read finds it. The record is taken exactly when it encodes and the
    /// log can take a record of its length; where it is refused, nothing
    /// changes.
    pub fn append(&mut self, record: Record) -> (r: Result<LogOffset, PyralogError>)
        requires
            old(self).wf(),
        ensures
            final(self).wf(),
            final(self).spec_config() == old(self).spec_config(),
            final(self).first_offset() == old(self).first_offset(),
            r is Ok <==> old(self).takes(record@),
            match r {
                Ok(o) => {
                    let stamped = RecordView { offset: o.0, ..record@ };
                    &&& o.0 == old(self).spec_next()
                    &&& final(self).spec_next() == o.0 + 1
                    &&& final(self).logical(o.0) == Some(record_wire(stamped))
                    &&& record_unwire(record_wire(stamped)) == Some(stamped)
                    &&& forall|k: u64|
                        k != o.0 ==> #[trigger] final(self).logical(k) == old(self).logical(k)
                    &&& grown(old(self).spec_segments(), final(self).spec_segments())
                    &&& final(self).spec_pending().len() > 0 || final(self).spec_segments().last().count() >= 1
                    &&& !old(self).cache_takes(record_wire(stamped).len()) ==> final(self).spec_pending().len() == 0 && final(self).readable(o.0) == Some(stamped)
                    &&& !old(self).cache_takes(record_wire(stamped).len()) && old(
                        self,
                    ).spec_pending().len() == 0 ==> written(
                        old(self).spec_segments(),
                        final(self).spec_segments(),
                        o.0,
                        record_wire(stamped),
                    )
                },
                Err(e) => {
                    &&& final(self).spec_next() == old(self).spec_next()
                    &&& final(self).spec_segments() == old(self).spec_segments()
                    &&& final(self).spec_pending() == old(self).spec_pending()
                    &&& e is SerializationError || e is StorageError || e is InvalidOffset
                    &&& e is SerializationError <==> !record_encodes(old(self).stamp(record@))
                    &&& e is InvalidOffset <==> record_encodes(old(self).stamp(record@)) && old(
                        self,
                    ).spec_next() == u64::MAX
                },
            },
    {
        let stamped: Record = record.with_offset(self.current_offset);
        match stamped.to_bytes() {
            Ok(encoded) => self.append_encoded(stamped, encoded),
            Err(e) => Err(e),
        }
    }

    /// Takes in a record that carries the next offset, together with its
    /// encoded form. This is what `append` does once the record is encoded.
    /// The record is taken exactly when it carries the offset that is next
    /// and the log can take a record of its encoded length.
    pub fn append_encoded(&mut self, record: Record, encoded: Vec<u8>) -> (r: Result<
        LogOffset,
        PyralogError,
    >)
        requires
            old(self).wf(),
        ensures
            final(self).wf(),
            final(self).spec_config() == old(self).spec_config(),
            final(self).first_offset() == old(self).first_offset(),
            r is Ok <==> record.offset.0 == old(self).spec_next() && old(self).can_take(
                encoded@.len(),
            ),
            match r {
                Ok(o) => {
                    &&& o.0 == old(self).spec_next()
                    &&& final(self).spec_next() == o.0 + 1
                    &&& final(self).logical(o.0) == Some(encoded@)
                    &&& forall|k: u64|
                        k != o.0 ==> #[trigger] final(self).logical(k) == old(self).logical(k)
                    &&& grown(old(self).spec_segments(), final(self).spec_segments())
                    &&& final(self).spec_pending().len() > 0 || final(self).spec_segments().last().count() >= 1
                    &&& !old(self).cache_takes(encoded@.len()) ==> final(self).spec_pending().len() == 0
                    &&& !old(self).cache_takes(encoded@.len()) && old(self).spec_pending().len()
                        == 0 ==> written(
                        old(self).spec_segments(),
                        final(self).spec_segments(),
                        o.0,
                        encoded@,
                    )
                },
                Err(e) => {
                    &&& final(self).spec_next() == old(self).spec_next()
                    &&& final(self).spec_segments() == old(self).spec_segments()
                    &&& final(self).spec_pending() == old(self).spec_pending()
                    &&& e is StorageError || e is InvalidOffset
                    &&& e is InvalidOffset <==> record.offset.0 != old(self).spec_next() || old(
                        self,
                    ).spec_next() == u64::MAX
                },
            },
    {
        let offset: u64 = self.current_offset.0;
        if record.offset.0 != offset || offset == u64::MAX {
            return Err(PyralogError::InvalidOffset(record.offset.0));
        }
        let len: usize = encoded.len();
        if len as u64 > self.config.segment_config.max_size || len as u64 > u32::MAX as u64 {
            return Err(PyralogError::StorageError(String::from_str("Segment is full")));
        }
        if self.write_cache.is_empty() && !self.tail_can_take(len) {
            return Err(PyralogError::StorageError(String::from_str("Segment is full")));
        }
        if self.write_cache.accepts(len) {
            self.take_cached(record, encoded);
        } else {
            self.take_direct(encoded);
        }
        Ok(LogOffset(offset))
    }

    /// Puts a record that the cache accepts into the cache, and flushes the
    /// cache if it is due.
    fn take_cached(&mut self, record: Record, encoded: Vec<u8>)
        requires
            old(self).wf(),
            record.offset.0 == old(self).spec_next(),
            old(self).can_take(encoded@.len()),
            old(self).write_cache.spec_accepts(encoded@.len()),
        ensures
            final(self).wf(),
            final(self).spec_config() == old(self).spec_config(),
            final(self).first_offset() == old(self).first_offset(),
            final(self).spec_next() == old(self).spec_next() + 1,
            final(self).logical(old(self).spec_next()) == Some(encoded@),
            forall|k: u64|
                k != old(self).spec_next() ==> #[trigger] final(self).logical(k) == old(
                    self,
                ).logical(k),
            grown(old(self).spec_segments(), final(self).spec_segments()),
            final(self).spec_pending().len() > 0 || final(self).spec_segments().last().count() >= 1,
    {
        let ghost s0 = *self;
        let offset: u64 = self.current_offset.0;
        let ghost c = CachedRecord { record, encoded };
        proof {
            lemma_grown_same(self.segments@);
        }
        self.write_cache.push(CachedRecord { record, encoded });
        self.current_offset = LogOffset(offset + 1);
        proof {
            let pend0 = s0.spec_pending();
            let pend1 = self.spec_pending();
            assert(pend1 == pend0.push(c));
            assert forall|j: int| 0 <= j < pend1.len() implies {
                &&& (#[trigger] pend1[j]).record.offset.0 == end_of(self.segments@) + j
                &&& pend1[j].encoded@.len() <= self.config.segment_config.max_size
                &&& pend1[j].encoded@.len() <= u32::MAX
            } by {
                if j < pend0.len() {
                    assert(pend1[j] == pend0[j]);
                }
            }
            assert(pend1[0] == if pend0.len() == 0 {
                c
            } else {
                pend0[0]
            });
            assert(self.wf());
            assert forall|k: u64| k != offset implies #[trigger] self.logical(k) == s0.logical(
                k,
            ) by {
                let end = end_of(s0.segments@);
                if k >= end && k - end < pend0.len() {
                    assert(pend1[k - end] == pend0[k - end]);
                }
            }
            assert(self.logical(offset) == Some(encoded@));
        }
        let ghost s1 = *self;
        if self.write_cache.should_flush() {
            self.flush_cache();
            proof {
                assert forall|k: u64| k != offset implies #[trigger] self.logical(k) == s0.logical(
                    k,
                ) by {
                    assert(self.logical(k) == s1.logical(k));
                }
                assert(self.logical(offset) == s1.logical(offset));
            }
        }
    }

    /// Writes a record that the cache does not accept to the last segment,
    /// behind the records of the cache.
    fn take_direct(&mut self, encoded: Vec<u8>)
        requires
            old(self).wf(),
            old(self).can_take(encoded@.len()),
        ensures
            final(self).wf(),
            final(self).spec_config() == old(self).spec_config(),
            final(self).first_offset() == old(self).first_offset(),
            final(self).spec_next() == old(self).spec_next() + 1,
            final(self).spec_pending().len() == 0,
            final(self).logical(old(self).spec_next()) == Some(encoded@),
            forall|k: u64|
                k != old(self).spec_next() ==> #[trigger] final(self).logical(k) == old(
                    self,
                ).logical(k),
            !old(self).spec_segments().last().segment.spec_can_fit(encoded@.len() as u64) && old(
                self,
            ).spec_pending().len() == 0 ==> final(self).spec_segments().len() == old(
                self,
            ).spec_segments().len() + 1,
            grown(old(self).spec_segments(), final(self).spec_segments()),
            final(self).spec_segments().last().count() >= 1,
            old(self).spec_pending().len() == 0 ==> written(
                old(self).spec_segments(),
                final(self).spec_segments(),
                old(self).spec_next(),
                encoded@,
            ),
    {
        let ghost s0 = *self;
        let offset: u64 = self.current_offset.0;
        self.flush_cache();
        let ghost s1 = *self;
        proof {
            assert(end_of(s1.segments@) == offset);
            if s0.spec_pending().len() == 0 {
                assert(s1.segments@ == s0.segments@);
            }
        }
        self.write_encoded(offset, encoded.as_slice());
        self.current_offset = LogOffset(offset + 1);
        proof {
            lemma_grown_twice(s0.segments@, s1.segments@, self.segments@);
            assert forall|k: u64| k != offset implies #[trigger] self.logical(k) == s0.logical(
                k,
            ) by {
                assert(s1.logical(k) == s0.logical(k));
                if k > offset {
                    lemma_stored_range(s1.segments@, s1.config.segment_config, k);
                }
            }
        }
    }

    /// The record of a batch as it is stored: with its offset stamped on.
    pub open spec fn stamped(batch: RecordBatch, base: u64, i: int) -> RecordView {
        RecordView { offset: (base + i) as u64, ..batch.records@[i]@ }
    }

    /// Whether record `i` of a batch, stamped with its offset, encodes.
    pub open spec fn encodes_at(batch: RecordBatch, base: u64, i: int) -> bool {
        record_encodes(Self::stamped(batch, base, i))
    }

    /// Whether record `i` of a batch, stamped and encoded, fits in a
    /// segment and in an index entry.
    pub open spec fn fits_at(&self, batch: RecordBatch, base: u64, i: int) -> bool {
        let len = record_wire(Self::stamped(batch, base, i)).len();
        len <= self.spec_config().segment_config.max_size && len <= u32::MAX
    }

    /// Whether the records of a batch before position `upto` encode and
    /// fit, each stamped with its offset from `base` on.
    pub open spec fn encodable(&self, batch: RecordBatch, base: u64, upto: int) -> bool {
        forall|i: int|
            0 <= i < upto ==> #[trigger] Self::encodes_at(batch, base, i) && self.fits_at(
                batch,
                base,
                i,
            )
    }

    /// Whether the log takes the batch: offsets are left for its records,
    /// every record encodes and fits, and the last segment has room for the
    /// first record or can be rolled.
    pub open spec fn takes_batch(&self, batch: RecordBatch) -> bool {
        let base = self.spec_next();
        let n = batch.records@.len();
        &&& base + n <= u64::MAX
        &&& self.encodable(batch, base, n as int)
        &&& n > 0 && self.spec_pending().len() == 0 ==> Self::tail_takes(
            self.spec_segments(),
            self.spec_config().segment_config.max_size,
            record_wire(Self::stamped(batch, base, 0)).len(),
        )
    }

    /// Encodes the records of a batch with the offsets from `base` on
    /// stamped on them. The first record that does not encode, or does not
    /// fit, decides the error.
    fn encode_batch(&self, batch: &RecordBatch, base: u64) -> (r: Result<
        Vec<Vec<u8>>,
        PyralogError,
    >)
        requires
            base + batch.records@.len() <= u64::MAX,
        ensures
            r is Ok <==> self.encodable(*batch, base, batch.records@.len() as int),
            match r {
                Ok(all) => {
                    &&& all@.len() == batch.records@.len()
                    &&& forall|i: int|
                        0 <= i < all@.len() ==> {
                            &&& (#[trigger] all@[i])@ == record_wire(Self::stamped(*batch, base, i))
                            &&& record_unwire(all@[i]@) == Some(Self::stamped(*batch, base, i))
                            &&& all@[i]@.len() <= self.spec_config().segment_config.max_size
                            &&& all@[i]@.len() <= u32::MAX
                        }
                },
                Err(e) => {
                    &&& e is SerializationError || e is StorageError
                    &&& exists|i: int|
                        0 <= i < batch.records@.len() && self.encodable(*batch, base, i) && (
                        e is SerializationError <==> !#[trigger] Self::encodes_at(*batch, base, i))
                        && !(Self::encodes_at(*batch, base, i) && self.fits_at(*batch, base, i))
                },
            },
    {
        let n: usize = batch.records.len();
        let mut all: Vec<Vec<u8>> = Vec::new();
        let mut i: usize = 0;
        while i < n
            invariant
                i <= n,
                n == batch.records@.len(),
                base + n <= u64::MAX,
                all@.len() == i,
                self.encodable(*batch, base, i as int),
                forall|j: int|
                    0 <= j < i ==> {
                        &&& (#[trigger] all@[j])@ == record_wire(Self::stamped(*batch, base, j))
                        &&& record_unwire(all@[j]@) == Some(Self::stamped(*batch, base, j))
                        &&& all@[j]@.len() <= self.config.segment_config.max_size
                        &&& all@[j]@.len() <= u32::MAX
                    },
            decreases n - i,
        {
            let rec: Record = batch.records[i].duplicate().with_offset(LogOffset(base + i as u64));
            assert(rec@ == Self::stamped(*batch, base, i as int));
            let encoded: Vec<u8> = match rec.to_bytes() {
                Ok(b) => b,
                Err(e) => {
                    assert(!Self::encodes_at(*batch, base, i as int));
                    return Err(e);
                },
            };
            assert(Self::encodes_at(*batch, base, i as int));
            let len: usize = encoded.len();
            if len as u64 > self.config.segment_config.max_size || len as u64 > u32::MAX as u64 {
                assert(!self.fits_at(*batch, base, i as int));
                return Err(PyralogError::StorageError(String::from_str("Segment is full")));
            }
            assert(self.fits_at(*batch, base, i as int));
            all.push(encoded);
            i += 1;
        }
        Ok(all)
    }

    /// Writes encoded records, one after the other, at the offsets from the
    /// end of the segments on.
    fn write_all(&mut self, base: u64, all: &Vec<Vec<u8>>)
        requires
            segments_ok(old(self).segments@, old(self).config.segment_config),
            base == end_of(old(self).segments@),
            base + all@.len() <= u64::MAX,
            forall|i: int|
                0 <= i < all@.len() ==> (#[trigger] all@[i])@.len() <= old(
                    self,
                ).config.segment_config.max_size && all@[i]@.len() <= u32::MAX,
            all@.len() > 0 ==> Self::tail_takes(old(self).segments@, old(self).config.segment_config.max_size, all@[0]@.len()),
        ensures
            segments_ok(final(self).segments@, final(self).config.segment_config),
            final(self).config == old(self).config,
            final(self).write_cache == old(self).write_cache,
            final(self).current_offset == old(self).current_offset,
            end_of(final(self).segments@) == base + all@.len(),
            final(self).segments@[0].base() == old(self).segments@[0].base(),
            forall|i: int|
                0 <= i < all@.len() ==> #[trigger] stored_bytes(
                    final(self).segments@,
                    (base + i) as u64,
                ) == Some(all@[i]@),
            forall|k: u64|
                !(base <= k < base + all@.len()) ==> #[trigger] stored_bytes(
                    final(self).segments@,
                    k,
                ) == stored_bytes(old(self).segments@, k),
            grown(old(self).segments@, final(self).segments@),
    {
        let ghost segs0 = self.segments@;
        let n: usize = all.len();
        let mut j: usize = 0;
        proof {
            lemma_grown_same(segs0);
        }
        while j < n
            invariant
                j <= n,
                n == all@.len(),
                base + n <= u64::MAX,
                segments_ok(self.segments@, self.config.segment_config),
                self.config == old(self).config,
                self.write_cache == old(self).write_cache,
                self.current_offset == old(self).current_offset,
                end_of(self.segments@) == base + j,
                self.segments@[0].base() == segs0[0].base(),
                forall|i: int|
                    0 <= i < all@.len() ==> (#[trigger] all@[i])@.len()
                        <= self.config.segment_config.max_size && all@[i]@.len() <= u32::MAX,
                j == 0 ==> self.segments@ == segs0 && (n > 0 ==> Self::tail_takes(segs0, self.config.segment_config.max_size,
                    all@[0]@.len())),
                j > 0 ==> self.segments@.last().count() >= 1,
                grown(segs0, self.segments@),
                forall|i: int|
                    0 <= i < j ==> #[trigger] stored_bytes(self.segments@, (base + i) as u64)
                        == Some(all@[i]@),
                forall|k: u64|
                    !(base <= k < base + j) ==> #[trigger] stored_bytes(self.segments@, k)
                        == stored_bytes(segs0, k),
            decreases n - j,
        {
            let ghost before = self.segments@;
            assert(all@[j as int]@.len() <= self.config.segment_config.max_size);
            self.write_encoded(base + j as u64, all[j].as_slice());
            proof {
                lemma_grown_twice(segs0, before, self.segments@);
                assert forall|i: int| 0 <= i < j + 1 implies #[trigger] stored_bytes(
                    self.segments@,
                    (base + i) as u64,
                ) == Some(all@[i]@) by {
                    if i < j {
                        assert(stored_bytes(before, (base + i) as u64) == Some(all@[i]@));
                    }
                }
                assert forall|k: u64| !(base <= k < base + j + 1) implies #[trigger] stored_bytes(
                    self.segments@,
                    k,
                ) == stored_bytes(segs0, k) by {
                    assert(stored_bytes(before, k) == stored_bytes(segs0, k));
                }
            }
            j += 1;
        }
    }

    /// Takes a batch in: gives its records the next offsets, one after the
    /// other, and writes them to the segments behind whatever waits in the
    /// cache. Either every record of the batch is taken or none is. The
    /// batch is taken exactly when offsets are left for it, each of its
    /// records encodes and fits, and the last segment can take the first.
    pub fn append_batch(&mut self, batch: RecordBatch) -> (r: Result<LogOffset, PyralogError>)
        requires
            old(self).wf(),
        ensures
            final(self).wf(),
            final(self).spec_config() == old(self).spec_config(),
            final(self).first_offset() == old(self).first_offset(),
            r is Ok <==> old(self).takes_batch(batch),
            match r {
                Ok(b) => {
                    &&& b.0 == old(self).spec_next()
                    &&& final(self).spec_next() == b.0 + batch.records@.len()
                    &&& final(self).spec_pending().len() == 0
                    &&& grown(old(self).spec_segments(), final(self).spec_segments())
                    &&& forall|i: int|
                        0 <= i < batch.records@.len() ==> {
                            &&& #[trigger] final(self).logical((b.0 + i) as u64) == Some(
                                record_wire(Self::stamped(batch, b.0, i)),
                            )
                            &&& record_unwire(record_wire(Self::stamped(batch, b.0, i))) == Some(
                                Self::stamped(batch, b.0, i),
                            )
                        }
                    &&& forall|k: u64|
                        !(b.0 <= k < b.0 + batch.records@.len()) ==> #[trigger] final(self).logical(
                            k,
                        ) == old(self).logical(k)
                },
                Err(e) => {
                    &&& final(self).spec_next() == old(self).spec_next()
                    &&& final(self).spec_segments() == old(self).spec_segments()
                    &&& final(self).spec_pending() == old(self).spec_pending()
                    &&& e is SerializationError || e is StorageError || e is InvalidOffset
                    &&& e is InvalidOffset <==> old(self).spec_next() + batch.records@.len()
                        > u64::MAX
                    &&& e is SerializationError <==> old(self).spec_next() + batch.records@.len()
                        <= u64::MAX && exists|i: int|
                        0 <= i < batch.records@.len() && old(self).encodable(
                            batch,
                            old(self).spec_next(),
                            i,
                        ) && !#[trigger] Self::encodes_at(batch, old(self).spec_next(), i)
                },
            },
    {
        let ghost s0 = *self;
        let base: u64 = self.current_offset.0;
        let n: usize = batch.records.len();
        if base as u128 + n as u128 > u64::MAX as u128 {
            return Err(PyralogError::InvalidOffset(base));
        }
        let all: Vec<Vec<u8>> = match self.encode_batch(&batch, base) {
            Ok(all) => all,
            Err(e) => {
                return Err(e);
            },
        };
        if n > 0 && self.write_cache.is_empty() && !self.tail_can_take(all[0].len()) {
            return Err(PyralogError::StorageError(String::from_str("Segment is full")));
        }
        self.flush_cache();
        let ghost s1 = *self;
        proof {
            if s0.spec_pending().len() == 0 {
                assert(s1.segments@ == s0.segments@);
            }
        }
        self.write_all(base, &all);
        self.current_offset = LogOffset(base + n as u64);
        proof {
            lemma_grown_twice(s0.segments@, s1.segments@, self.segments@);
            assert forall|k: u64| !(base <= k < base + n) implies #[trigger] self.logical(k)
                == s0.logical(k) by {
                assert(s1.logical(k) == s0.logical(k));
                if k >= base + n {
                    lemma_stored_range(s1.segments@, s1.config.segment_config, k);
                }
            }
            assert forall|i: int| 0 <= i < batch.records@.len() implies {
                &&& #[trigger] self.logical((base + i) as u64) == Some(
                    record_wire(Self::stamped(batch, base, i)),
                )
                &&& record_unwire(record_wire(Self::stamped(batch, base, i))) == Some(
                    Self::stamped(batch, base, i),
                )
            } by {
                assert(stored_bytes(self.segments@, (base + i) as u64) == Some(all@[i]@));
            }
        }
        Ok(LogOffset(base))
    }

    /// Writes the records of the cache to the segments. Afterwards every
    /// offset that was handed out is stored in a segment.
    pub fn flush(&mut self)
        requires
            old(self).wf(),
        ensures
            final(self).wf(),
            final(self).spec_config() == old(self).spec_config(),
            final(self).spec_next() == old(self).spec_next(),
            final(self).first_offset() == old(self).first_offset(),
            final(self).spec_pending().len() == 0,
            grown(old(self).spec_segments(), final(self).spec_segments()),
            old(self).spec_pending().len() > 0 || old(self).spec_segments().last().count() >= 1
                ==> final(self).spec_segments().last().count() >= 1,
            forall|k: u64| #[trigger] final(self).logical(k) == old(self).logical(k),
            forall|k: u64| #[trigger] final(self).stored(k) == old(self).logical(k),
    {
        self.flush_cache();
        proof {
            assert forall|k: u64| #[trigger] self.stored(k) == old(self).logical(k) by {
                assert(self.logical(k) == old(self).logical(k));
                lemma_stored_range(self.segments@, self.config.segment_config, k);
            }
        }
    }

    /// The offset that the next record gets: the local end of the log.
    pub fn high_watermark(&self) -> (r: LogOffset)
        ensures
            r.0 == self.spec_next(),
    {
        self.current_offset
    }

    /// The record stored at `offset`. An offset that no segment holds has
    /// no record; stored bytes that do not decode are corrupt, which is a
    /// storage error.
    pub fn read(&self, offset: LogOffset) -> (r: Result<Option<Record>, PyralogError>)
        requires
            self.wf(),
        ensures
            match self.stored(offset.0) {
                None => r matches Ok(o) && o is None,
                Some(b) => match record_unwire(b) {
                    Some(v) => r matches Ok(Some(rec)) && rec@ == v,
                    None => r matches Err(e) && e is StorageError,
                },
            },
    {
        match self.find_segment(offset.0) {
            None => Ok(None),
            Some(i) => {
                let sw: &SegmentWithIndex = &self.segments[i];
                proof {
                    assert(self.segments@[i as int].wf());
                    lemma_dense_lookup(sw, offset.0);
                }
                match sw.index.lookup(offset) {
                    None => Ok(None),
                    Some((position, size)) => {
                        match sw.segment.read(position, size as usize) {
                            Ok(bytes) => {
                                match Record::from_bytes(buffer_as_slice(&bytes)) {
                                    Ok(rec) => Ok(Some(rec)),
                                    Err(e) => Err(PyralogError::StorageError(e.to_text())),
                                }
                            },
                            Err(e) => Err(e),
                        }
                    },
                }
            },
        }
    }

    /// The records that reads at the offsets `lo .. hi` find, in offset
    /// order.
    pub open spec fn range_records(&self, lo: u64, hi: u64) -> Seq<RecordView>
        decreases hi - lo,
    {
        if lo >= hi {
            Seq::empty()
        } else {
            let rest = self.range_records(lo, (hi - 1) as u64);
            match self.readable((hi - 1) as u64) {
                Some(v) => rest.push(v),
                None => rest,
            }
        }
    }

    /// Every record stored at an offset of `lo .. hi` decodes.
    pub open spec fn range_decodes(&self, lo: u64, hi: u64) -> bool {
        forall|k: u64| lo <= k < hi && self.stored(k) is Some ==> (#[trigger] self.readable(k)) is Some
    }

    /// Reads `lo .. hi` offset by offset.
    fn read_span(&self, lo: u64, hi: u64, limit: Option<usize>) -> (r: Result<
        (Vec<Record>, u64),
        PyralogError,
    >)
        requires
            self.wf(),
            lo <= hi,
        ensures
            match r {
                Ok((v, stop)) => {
                    &&& lo <= stop <= hi
                    &&& self.range_decodes(lo, stop)
                    &&& records_view(v@) == self.range_records(lo, stop)
                    &&& limit matches Some(m) ==> v@.len() <= m
                    &&& stop == hi || (limit matches Some(m) && v@.len() == m)
                },
                Err(e) => e is StorageError && exists|k: u64|
                    lo <= k < hi && self.stored(k) is Some && (#[trigger] self.readable(k)) is None,
            },
    {
        let mut out: Vec<Record> = Vec::new();
        let mut k: u64 = lo;
        assert(records_view(out@) =~= self.range_records(lo, lo));
        while k < hi && below_limit(out.len(), limit)
            invariant
                lo <= k <= hi,
                self.wf(),
                self.range_decodes(lo, k),
                records_view(out@) == self.range_records(lo, k),
                limit matches Some(m) ==> out@.len() <= m,
            decreases hi - k,
        {
            match self.read(LogOffset(k)) {
                Ok(Some(rec)) => {
                    let ghost before = out@;
                    out.push(rec);
                    assert(records_view(out@) =~= records_view(before).push(rec@));
                },
                Ok(None) => {},
                Err(e) => {
                    assert(self.stored(k) is Some && self.readable(k) is None);
                    return Err(e);
                },
            }
            k += 1;
        }
        Ok((out, k))
    }

    /// The records stored at the offsets of `range`, in offset order.
    /// Offsets that hold no record are passed over; a stored record that
    /// does not decode is an error.
    pub fn read_range(&self, range: OffsetRange) -> (r: Result<Vec<Record>, PyralogError>)
        requires
            self.wf(),
        ensures
            match r {
                Ok(v) => self.range_decodes(range.start.0, range.end.0) && records_view(v@)
                    == self.range_records(range.start.0, range.end.0),
                Err(e) => !self.range_decodes(range.start.0, range.end.0) && e is StorageError,
            },
    {
        let lo: u64 = range.start.0;
        let end: u64 = self.segments_end();
        let hi: u64 = if range.end.0 < end {
            range.end.0
        } else {
            end
        };
        if lo >= hi {
            proof {
                self.lemma_nothing_beyond_end(lo, lo, range.end.0);
            }
            return Ok(Vec::new());
        }
        proof {
            self.lemma_nothing_beyond_end(lo, hi, range.end.0);
        }
        match self.read_span(lo, hi, None) {
            Ok((v, stop)) => Ok(v),
            Err(e) => Err(e),
        }
    }

    /// The number of bytes stored for offset `k`; none where no segment
    /// holds the offset.
    pub open spec fn size_at(&self, k: u64) -> int {
        match self.stored(k) {
            Some(b) => b.len() as int,
            None => 0,
        }
    }

    /// Where a read stops that has come to offset `k` with `taken` records
    /// and `bytes` bytes: at the end of the stored log, or where the count
    /// of records is reached, or before the first record whose bytes would
    /// exceed the limit on bytes, if there is one.
    pub open spec fn read_stop(
        &self,
        k: u64,
        taken: int,
        bytes: int,
        max_records: int,
        max_bytes: Option<int>,
    ) -> u64
        decreases end_of(self.spec_segments()) - k,
    {
        if k >= end_of(self.spec_segments()) || k == u64::MAX || taken >= max_records || (
        max_bytes matches Some(m) && bytes + self.size_at(k) > m) {
            k
        } else {
            self.read_stop(
                (k + 1) as u64,
                taken + (if self.readable(k) is Some {
                    1int
                } else {
                    0int
                }),
                bytes + self.size_at(k),
                max_records,
                max_bytes,
            )
        }
    }

    /// A read stops at or behind the offset it has come to.
    pub proof fn lemma_read_stop(
        &self,
        k: u64,
        taken: int,
        bytes: int,
        max_records: int,
        max_bytes: Option<int>,
    )
        ensures
            k <= self.read_stop(k, taken, bytes, max_records, max_bytes),
            self.read_stop(k, taken, bytes, max_records, max_bytes) <= k || self.read_stop(
                k,
                taken,
                bytes,
                max_records,
                max_bytes,
            ) <= end_of(self.spec_segments()),
        decreases end_of(self.spec_segments()) - k,
    {
        if !(k >= end_of(self.spec_segments()) || k == u64::MAX || taken >= max_records || (
        max_bytes matches Some(m) && bytes + self.size_at(k) > m)) {
            self.lemma_read_stop(
                (k + 1) as u64,
                taken + (if self.readable(k) is Some {
                    1int
                } else {
                    0int
                }),
                bytes + self.size_at(k),
                max_records,
                max_bytes,
            );
        }
    }

    /// Reads from `lo` on until the read stops.
    fn read_until_stop(&self, lo: u64, max_records: usize, max_bytes: Option<usize>) -> (r: Result<
        Vec<Record>,
        PyralogError,
    >)
        requires
            self.wf(),
        ensures
            ({
                let limit = match max_bytes {
                    Some(m) => Some(m as int),
                    None => None,
                };
                let stop = self.read_stop(lo, 0, 0, max_records as int, limit);
                &&& r is Ok <==> self.range_decodes(lo, stop)
                &&& match r {
                    Ok(v) => {
                        &&& records_view(v@) == self.range_records(lo, stop)
                        &&& v@.len() <= max_records
                        &&& max_bytes matches Some(m) ==> self.range_size(lo, stop) <= m
                    },
                    Err(e) => e is StorageError,
                }
            }),
    {
        let ghost limit: Option<int> = match max_bytes {
            Some(m) => Some(m as int),
            None => None,
        };
        let ghost goal = self.read_stop(lo, 0, 0, max_records as int, limit);
        let end: u64 = self.segments_end();
        let mut out: Vec<Record> = Vec::new();
        let mut k: u64 = lo;
        let mut total: usize = 0;
        let ghost mut bytes: int = 0;
        assert(records_view(out@) =~= self.range_records(lo, lo));
        let mut full: bool = false;
        while k < end && out.len() < max_records && !full
            invariant
                lo <= k,
                k <= end || k == lo,
                end == end_of(self.spec_segments()),
                self.wf(),
                limit == (match max_bytes {
                    Some(m) => Some(m as int),
                    None => None,
                }),
                self.range_decodes(lo, k),
                records_view(out@) == self.range_records(lo, k),
                out@.len() <= max_records,
                bytes == self.range_size(lo, k),
                max_bytes matches Some(m) ==> total == bytes && total <= m,
                goal == self.read_stop(lo, 0, 0, max_records as int, limit),
                goal == self.read_stop(k, out@.len() as int, bytes, max_records as int, limit),
                full ==> goal == k,
            decreases end - k + (if full { 0int } else { 1int }),
        {
            let over: bool = match max_bytes {
                Some(m) => {
                    let size: usize = match self.stored_size(LogOffset(k)) {
                        Some(n) => n as usize,
                        None => 0,
                    };
                    if size > m - total {
                        true
                    } else {
                        total = total + size;
                        false
                    }
                },
                None => false,
            };
            if over {
                full = true;
            } else {
                match self.read(LogOffset(k)) {
                    Ok(Some(rec)) => {
                        let ghost before = out@;
                        out.push(rec);
                        assert(records_view(out@) =~= records_view(before).push(rec@));
                    },
                    Ok(None) => {},
                    Err(e) => {
                        proof {
                            assert(self.stored(k) is Some && self.readable(k) is None);
                            assert(limit matches Some(m) ==> bytes + self.size_at(k) <= m);
                            assert(goal == self.read_stop(
                                (k + 1) as u64,
                                out@.len() as int,
                                bytes + self.size_at(k),
                                max_records as int,
                                limit,
                            ));
                            self.lemma_read_stop(
                                (k + 1) as u64,
                                out@.len() as int,
                                bytes + self.size_at(k),
                                max_records as int,
                                limit,
                            );
                            assert(lo <= k < goal);
                            assert(!self.range_decodes(lo, goal));
                        }
                        return Err(e);
                    },
                }
                proof {
                    bytes = bytes + self.size_at(k);
                }
                k += 1;
            }
        }
        Ok(out)
    }

    /// Up to `max_count` records from `offset` on, in offset order: the
    /// records at `offset .. stop`, where `stop` is the end of the stored
    /// log or the offset at which the count was reached. A stored record
    /// that does not decode is an error.
    pub fn read_from(&self, offset: LogOffset, max_count: usize) -> (r: Result<
        Vec<Record>,
        PyralogError,
    >)
        requires
            self.wf(),
        ensures
            ({
                let stop = self.read_stop(offset.0, 0, 0, max_count as int, None);
                &&& r is Ok <==> self.range_decodes(offset.0, stop)
                &&& match r {
                    Ok(v) => records_view(v@) == self.range_records(offset.0, stop) && v@.len()
                        <= max_count,
                    Err(e) => e is StorageError,
                }
            }),
    {
        self.read_until_stop(offset.0, max_count, None)
    }

    /// The number of bytes stored for the offsets `lo .. hi`.
    pub open spec fn range_size(&self, lo: u64, hi: u64) -> int
        decreases hi - lo,
    {
        if lo >= hi {
            0
        } else {
            self.range_size(lo, (hi - 1) as u64) + match self.stored((hi - 1) as u64) {
                Some(b) => b.len() as int,
                None => 0,
            }
        }
    }

    /// The number of bytes stored for `offset`, if a segment holds it.
    pub fn stored_size(&self, offset: LogOffset) -> (r: Option<u32>)
        requires
            self.wf(),
        ensures
            match r {
                Some(n) => self.stored(offset.0) matches Some(b) && b.len() == n,
                None => self.stored(offset.0) is None,
            },
    {
        match self.find_segment(offset.0) {
            None => None,
            Some(i) => {
                let sw: &SegmentWithIndex = &self.segments[i];
                proof {
                    assert(self.segments@[i as int].wf());
                    lemma_dense_lookup(sw, offset.0);
                }
                match sw.index.lookup(offset) {
                    None => None,
                    Some((position, size)) => Some(size),
                }
            },
        }
    }

    /// Records from `offset` on, in offset order, up to `max_records` of
    /// them and up to `max_bytes` stored bytes in all: the records at
    /// `offset .. stop`, where `stop` is the end of the stored log, or the
    /// offset at which the count was reached, or the offset of the first
    /// record that would have exceeded the bytes. A stored record that does
    /// not decode is an error.
    pub fn read_from_limited(&self, offset: LogOffset, max_records: usize, max_bytes: usize) -> (r:
        Result<Vec<Record>, PyralogError>)
        requires
            self.wf(),
        ensures
            ({
                let stop = self.read_stop(
                    offset.0,
                    0,
                    0,
                    max_records as int,
                    Some(max_bytes as int),
                );
                &&& r is Ok <==> self.range_decodes(offset.0, stop)
                &&& match r {
                    Ok(v) => {
                        &&& records_view(v@) == self.range_records(offset.0, stop)
                        &&& v@.len() <= max_records
                        &&& self.range_size(offset.0, stop) <= max_bytes
                    },
                    Err(e) => e is StorageError,
                }
            }),
    {
        self.read_until_stop(offset.0, max_records, Some(max_bytes))
    }

    /// Beyond the end of the stored log there is nothing to read.
    pub proof fn lemma_nothing_beyond_end(&self, lo: u64, mid: u64, hi: u64)
        requires
            self.wf(),
            lo <= mid,
            mid >= end_of(self.spec_segments()) || mid >= hi,
        ensures
            mid <= hi ==> self.range_records(lo, hi) == self.range_records(lo, mid),
            mid <= hi ==> (self.range_decodes(lo, hi) <==> self.range_decodes(lo, mid)),
            mid > hi && lo >= hi ==> self.range_records(lo, hi) == Seq::<RecordView>::empty(),
        decreases hi - mid,
    {
        if mid < hi {
            self.lemma_nothing_beyond_end(lo, mid, (hi - 1) as u64);
            lemma_stored_range(
                self.spec_segments(),
                self.spec_config().segment_config,
                (hi - 1) as u64,
            );
            assert forall|k: u64| mid <= k < hi implies self.stored(k) is None by {
                lemma_stored_range(self.spec_segments(), self.spec_config().segment_config, k);
            }
        }
    }

    /// The number of segments.
    pub fn segment_count(&self) -> (n: usize)
        ensures
            n == self.spec_segments().len(),
    {
        self.segments.len()
    }

    /// Segment number `i` with its index.
    pub fn segment(&self, i: usize) -> (r: &SegmentWithIndex)
        requires
            i < self.spec_segments().len(),
        ensures
            *r == self.spec_segments()[i as int],
    {
        &self.segments[i]
    }

    /// The number of records that wait in the cache.
    pub fn pending_count(&self) -> (n: usize)
        ensures
            n == self.spec_pending().len(),
    {
        self.write_cache.len()
    }
}

/// The content of one segment file and of its index file, as found in a
/// partition's directory. A missing index file counts as an empty one.
#[derive(Debug)]
pub struct SegmentFile {
    pub name: String,
    pub log: Vec<u8>,
    pub index: Vec<u8>,
}

impl SegmentFile {
    /// The base offset that the file's name spells.
    pub open spec fn base(&self) -> Option<u64> {
        parse_decimal(stem_of(self.name@))
    }

    /// The entries that the index file spells out.
    pub open spec fn entries(&self) -> Seq<IndexEntry> {
        entries_of_image(self.index@)
    }

    /// The name spells a base offset, the index lists the offsets from the
    /// base on without a gap, and every entry points into the segment.
    pub open spec fn sound(&self) -> bool {
        &&& self.base() is Some
        &&& self.base()->0 + self.entries().len() <= u64::MAX
        &&& forall|j: int|
            0 <= j < self.entries().len() ==> {
                let e = #[trigger] self.entries()[j];
                e.offset.0 == self.base()->0 + j && e.position + e.size <= self.log@.len()
            }
    }
}

/// Every file but the last holds a record, and each file's segment begins
/// where the one before it ends.
pub open spec fn files_chained(files: Seq<SegmentFile>) -> bool {
    forall|i: int|
        0 <= i < files.len() - 1 ==> (#[trigger] files[i]).entries().len() >= 1 && files[i
            + 1].base()->0 == files[i].base()->0 + files[i].entries().len()
}

/// The files make up a log: each is sound, and they are chained in the
/// order given.
#[verifier::opaque]
pub open spec fn files_consistent(files: Seq<SegmentFile>) -> bool {
    &&& forall|i: int| 0 <= i < files.len() ==> (#[trigger] files[i]).sound()
    &&& files_chained(files)
}

/// The segment and its index are the images of the file.
#[verifier::opaque]
pub open spec fn mirrors(sw: SegmentWithIndex, f: SegmentFile) -> bool {
    &&& f.base() == Some(sw.base())
    &&& sw.segment.spec_name() == f.name@
    &&& sw.segment.spec_data() == f.log@
    &&& sw.index.spec_entries() == f.entries()
    &&& sw.index.spec_image() == f.index@.subrange(0, 20 * (f.index@.len() as int / 20))
}

/// The segment and its index are the sound images of the sound file, made
/// with the settings `config`.
#[verifier::opaque]
pub open spec fn loaded(sw: SegmentWithIndex, f: SegmentFile, config: SegmentConfig) -> bool {
    &&& mirrors(sw, f)
    &&& sw.wf()
    &&& f.sound()
    &&& sw.segment.spec_config() == config
}

/// Files of which one is unsound do not make up a log.
pub proof fn lemma_unsound_file(files: Seq<SegmentFile>, i: int)
    requires
        0 <= i < files.len(),
        !files[i].sound(),
    ensures
        !files_consistent(files),
{
    reveal(files_consistent);
}

/// Files of which two neighbours do not link do not make up a log.
pub proof fn lemma_broken_chain(
    files: Seq<SegmentFile>,
    i: int,
    sw: SegmentWithIndex,
    next: SegmentWithIndex,
    config: SegmentConfig,
)
    requires
        0 <= i < files.len() - 1,
        mirrors(sw, files[i]),
        loaded(next, files[i + 1], config),
        !(sw.count() >= 1 && next.base() == sw.base() + sw.count()),
    ensures
        !files_consistent(files),
{
    reveal(files_consistent);
    reveal(mirrors);
    reveal(loaded);
    if files_consistent(files) {
        assert(files[i].entries().len() >= 1 && files[i + 1].base()->0 == files[i].base()->0
            + files[i].entries().len());
    }
}

/// Chained segments that are the images of the files, one each, are the
/// sound segments of a log, and the files make up that log.
pub proof fn lemma_loaded_files(
    segs: Seq<SegmentWithIndex>,
    files: Seq<SegmentFile>,
    config: SegmentConfig,
)
    requires
        segs.len() == files.len(),
        segs.len() >= 1,
        forall|j: int| 0 <= j < segs.len() ==> loaded(#[trigger] segs[j], files[j], config),
        chained(segs),
    ensures
        files_consistent(files),
        segments_ok(segs, config),
        forall|j: int| 0 <= j < segs.len() ==> mirrors(#[trigger] segs[j], files[j]),
{
    reveal(files_consistent);
    reveal(mirrors);
    reveal(loaded);
    assert forall|j: int| 0 <= j < files.len() implies (#[trigger] files[j]).sound() by {
        assert(loaded(segs[j], files[j], config));
    }
    assert forall|j: int| 0 <= j < files.len() - 1 implies (#[trigger] files[j]).entries().len() >= 1
        && files[j + 1].base()->0 == files[j].base()->0 + files[j].entries().len() by {
        assert(loaded(segs[j], files[j], config));
        assert(loaded(segs[j + 1], files[j + 1], config));
        assert(segs[j].count() >= 1);
    }
}

impl LogStorage {
    /// Whether the index of `sw` lists the offsets from the base on
    /// without a gap, with every entry pointing into the segment.
    fn is_sound(sw: &SegmentWithIndex) -> (r: bool)
        requires
            sw.segment.wf(),
            sw.index.wf(),
        ensures
            r == sw.wf(),
    {
        let base: u64 = sw.segment.base_offset().0;
        let size: u64 = sw.segment.size();
        let n: usize = sw.index.len();
        if base as u128 + n as u128 > u64::MAX as u128 {
            return false;
        }
        let listed: Vec<(LogOffset, u64, u32)> = sw.index.entries();
        let mut j: usize = 0;
        while j < n
            invariant
                j <= n,
                n == sw.index.spec_entries().len(),
                n == listed@.len(),
                forall|i: int|
                    0 <= i < n ==> (#[trigger] listed@[i]) == (
                        sw.index.spec_entries()[i].offset,
                        sw.index.spec_entries()[i].position,
                        sw.index.spec_entries()[i].size,
                    ),
                base == sw.base(),
                size == sw.segment.spec_data().len(),
                base + n <= u64::MAX,
                forall|i: int|
                    0 <= i < j ==> {
                        let e = #[trigger] sw.index.spec_entries()[i];
                        e.offset.0 == base + i && e.position + e.size <= size
                    },
            decreases n - j,
        {
            let at: (LogOffset, u64, u32) = listed[j];
            let e = IndexEntry { offset: at.0, position: at.1, size: at.2 };
            assert(e == sw.index.spec_entries()[j as int]);
            if e.offset.0 != base + j as u64 || e.position as u128 + e.size as u128 > size as u128 {
                assert(!({
                    let x = sw.index.spec_entries()[j as int];
                    x.offset.0 == sw.base() + j && x.position + x.size
                        <= sw.segment.spec_data().len()
                }));
                return false;
            }
            j += 1;
        }
        true
    }

    /// Puts `sw` in front of the segments, if the first of them begins
    /// where `sw` ends.
    fn link_front(segments: &mut Vec<SegmentWithIndex>, sw: SegmentWithIndex) -> (ok: bool)
        requires
            chained(old(segments)@),
            sw.wf(),
        ensures
            ok == (old(segments)@.len() == 0 || (sw.count() >= 1 && old(segments)@[0].base()
                == sw.base() + sw.count())),
            ok ==> final(segments)@ == old(segments)@.insert(0, sw) && chained(final(segments)@),
            !ok ==> final(segments)@ == old(segments)@,
    {
        if segments.len() > 0 {
            let next_base: u64 = segments[0].segment.base_offset().0;
            if sw.index.len() == 0 || sw.segment.base_offset().0 + sw.index.len() as u64
                != next_base {
                return false;
            }
        }
        let ghost before = segments@;
        segments.insert(0, sw);
        proof {
            let after = segments@;
            assert forall|j: int| 0 <= j < after.len() - 1 implies (#[trigger] after[j]).count() >= 1
                && after[j + 1].base() == after[j].base() + after[j].count() by {
                if j > 0 {
                    assert(after[j] == before[j - 1] && after[j + 1] == before[j]);
                    assert(before[j - 1].count() >= 1);
                } else {
                    assert(after[1] == before[0]);
                }
            }
        }
        true
    }

    /// The images of one segment file and its index file, if the two are
    /// sound.
    fn open_one(f: SegmentFile, config: SegmentConfig) -> (r: Result<
        SegmentWithIndex,
        PyralogError,
    >)
        ensures
            match r {
                Ok(sw) => loaded(sw, f, config) && mirrors(sw, f) && sw.wf(),
                Err(e) => !f.sound() && e is StorageError,
            },
    {
        reveal(loaded);
        reveal(mirrors);
        let SegmentFile { name, log, index } = f;
        let segment: Segment = match Segment::open(name.as_str(), log, config) {
            Ok(s) => s,
            Err(e) => {
                return Err(e);
            },
        };
        let index: Index = Index::open(index.as_slice());
        let sw = SegmentWithIndex { segment, index };
        assert(mirrors(sw, f));
        if !Self::is_sound(&sw) {
            return Err(
                PyralogError::StorageError(String::from_str("Index does not match segment")),
            );
        }
        Ok(sw)
    }

    /// The log that the files of a partition's directory make up. The files
    /// are taken in the order given, which has to be the order of their
    /// base offsets. No files make an empty log. Files that do not make up
    /// a log are refused: a name that spells no offset, an index with a gap
    /// or with an entry that points outside its segment, or a segment that
    /// does not begin where the one before it ends.
    pub fn open(files: Vec<SegmentFile>, config: LogStorageConfig) -> (r: Result<
        Self,
        PyralogError,
    >)
        ensures
            match r {
                Ok(s) => {
                    &&& files_consistent(files@)
                    &&& s.wf()
                    &&& s.spec_config() == config
                    &&& s.spec_pending().len() == 0
                    &&& files@.len() == 0 ==> s.spec_segments().len() == 1 && s.spec_next() == 0
                        && s.first_offset() == 0 && s.spec_segments()[0].count() == 0
                        && s.spec_segments()[0].segment.spec_data().len() == 0
                    &&& files@.len() > 0 ==> s.spec_segments().len() == files@.len() && forall|
                        i: int,
                    |
                        0 <= i < files@.len() ==> mirrors(
                            #[trigger] s.spec_segments()[i],
                            files@[i],
                        )
                },
                Err(e) => !files_consistent(files@) && e is StorageError,
            },
    {
        let ghost files0 = files@;
        let total: usize = files.len();
        if total == 0 {
            proof {
                reveal(files_consistent);
            }
            return Ok(Self::create(config));
        }
        let mut rest = files;
        let mut segments: Vec<SegmentWithIndex> = Vec::new();
        let mut i: usize = total;
        while i > 0
            invariant
                i <= total,
                total == files0.len(),
                files0 == files@,
                rest@ == files0.subrange(0, i as int),
                segments@.len() == total - i,
                forall|j: int|
                    0 <= j < segments@.len() ==> loaded(
                        #[trigger] segments@[j],
                        files0[i + j],
                        config.segment_config,
                    ),
                chained(segments@),
            decreases i,
        {
            let f: SegmentFile = rest.pop().unwrap();
            let ghost fv = files0[i - 1];
            assert(f == fv);
            let sw: SegmentWithIndex = match Self::open_one(f, config.segment_config) {
                Ok(sw) => sw,
                Err(e) => {
                    proof {
                        lemma_unsound_file(files0, i - 1);
                    }
                    return Err(e);
                },
            };
            let ghost before = segments@;
            let ghost swv = sw;
            if !Self::link_front(&mut segments, sw) {
                proof {
                    assert(loaded(before[0], files0[i + 0], config.segment_config));
                    lemma_broken_chain(files0, i - 1, swv, before[0], config.segment_config);
                }
                return Err(
                    PyralogError::StorageError(String::from_str("Segments are not contiguous")),
                );
            }
            proof {
                let after = segments@;
                assert forall|j: int| 0 <= j < after.len() implies loaded(
                    #[trigger] after[j],
                    files0[i - 1 + j],
                    config.segment_config,
                ) by {
                    if j > 0 {
                        assert(after[j] == before[j - 1]);
                        assert(loaded(before[j - 1], files0[i + (j - 1)], config.segment_config));
                    }
                }
                assert(rest@ =~= files0.subrange(0, i - 1));
            }
            i -= 1;
        }
        proof {
            assert forall|j: int| 0 <= j < segments@.len() implies loaded(
                #[trigger] segments@[j],
                files0[j],
                config.segment_config,
            ) by {
                assert(loaded(segments@[j], files0[0 + j], config.segment_config));
            }
            lemma_loaded_files(segments@, files0, config.segment_config);
        }
        let end: u64 = {
            let tail: &SegmentWithIndex = &segments[total - 1];
            tail.segment.base_offset().0 + tail.index.len() as u64
        };
        Ok(
            Self {
                segments,
                write_cache: WriteCache::new(config.cache_config),
                config,
                current_offset: LogOffset(end),
            },
        )
    }

    /// Copies of all segment files and index files, oldest first: what a
    /// partition's directory holds once everything is written out.
    pub fn snapshot(&self) -> (r: Vec<SegmentFile>)
        requires
            self.wf(),
        ensures
            r@.len() == self.spec_segments().len(),
            r@.len() >= 1,
            forall|i: int| 0 <= i < r@.len() ==> mirrors(self.spec_segments()[i], #[trigger] r@[i]),
            files_consistent(r@),
    {
        reveal(mirrors);
        reveal(files_consistent);
        let mut out: Vec<SegmentFile> = Vec::new();
        let n: usize = self.segments.len();
        let mut i: usize = 0;
        while i < n
            invariant
                i <= n,
                n == self.segments@.len(),
                self.wf(),
                out@.len() == i,
                forall|j: int| 0 <= j < i ==> mirrors(self.segments@[j], #[trigger] out@[j]),
            decreases n - i,
        {
            let sw: &SegmentWithIndex = &self.segments[i];
            proof {
                reveal(mirrors);
                assert(self.segments@[i as int].wf());
                sw.segment.lemma_name();
                sw.index.lemma_wf();
            }
            let f = SegmentFile {
                name: String::from_str(sw.segment.path()),
                log: slice_to_vec(sw.segment.bytes()),
                index: slice_to_vec(sw.index.bytes()),
            };
            assert(f.index@.subrange(0, 20 * (f.index@.len() as int / 20)) =~= f.index@);
            out.push(f);
            i += 1;
        }
        proof {
            let segs = self.segments@;
            assert forall|i: int| 0 <= i < out@.len() implies (#[trigger] out@[i]).sound() by {
                assert(mirrors(segs[i], out@[i]));
                assert(segs[i].wf());
            }
            assert forall|i: int| 0 <= i < out@.len() - 1 implies (#[trigger] out@[i]).entries().len()
                >= 1 && out@[i + 1].base()->0 == out@[i].base()->0 + out@[i].entries().len() by {
                assert(mirrors(segs[i], out@[i]));
                assert(mirrors(segs[i + 1], out@[i + 1]));
                assert(segs[i].count() >= 1);
            }
        }
        out
    }

    /// Records that segment number `i` and its index have reached the disk
    /// as they are.
    pub fn mark_synced(&mut self, i: usize)
        requires
            old(self).wf(),
            i < old(self).spec_segments().len(),
        ensures
            final(self).wf(),
            final(self).spec_config() == old(self).spec_config(),
            final(self).spec_next() == old(self).spec_next(),
            final(self).spec_pending() == old(self).spec_pending(),
            final(self).spec_segments().len() == old(self).spec_segments().len(),
            final(self).first_offset() == old(self).first_offset(),
            final(self).spec_segments()[i as int].segment.spec_durable() == old(
                self,
            ).spec_segments()[i as int].segment.spec_data().len(),
            final(self).spec_segments()[i as int].index.spec_durable() == old(
                self,
            ).spec_segments()[i as int].index.spec_image().len(),
            final(self).spec_segments()[i as int].segment.spec_data() == old(
                self,
            ).spec_segments()[i as int].segment.spec_data(),
            final(self).spec_segments()[i as int].segment.spec_name() == old(
                self,
            ).spec_segments()[i as int].segment.spec_name(),
            final(self).spec_segments()[i as int].index.spec_image() == old(
                self,
            ).spec_segments()[i as int].index.spec_image(),
            forall|j: int|
                0 <= j < old(self).spec_segments().len() && j != i ==> #[trigger] final(self).spec_segments()[j] == old(self).spec_segments()[j],
            forall|k: u64| #[trigger] final(self).logical(k) == old(self).logical(k),
    {
        let ghost segs0 = self.segments@;
        let mut sw: SegmentWithIndex = self.segments.remove(i);
        assert(sw == segs0[i as int]);
        assert(sw.wf());
        sw.segment.sync();
        sw.index.sync();
        let ghost synced = sw;
        self.segments.insert(i, sw);
        proof {
            let segs1 = self.segments@;
            assert(segs1 =~= segs0.update(i as int, synced));
            assert forall|j: int| 0 <= j < segs1.len() implies (#[trigger] segs1[j]).wf()
                && segs1[j].segment.spec_config() == self.config.segment_config by {
                if j != i {
                    assert(segs1[j] == segs0[j]);
                    assert(segs0[j].wf());
                }
            }
            assert forall|j: int| 0 <= j < segs1.len() implies (#[trigger] segs1[j]).base()
                == segs0[j].base() && segs1[j].count() == segs0[j].count() by {
                if j != i {
                    assert(segs1[j] == segs0[j]);
                }
            }
            assert forall|j: int| 0 <= j < segs1.len() - 1 implies (#[trigger] segs1[j]).count() >= 1
                && segs1[j + 1].base() == segs1[j].base() + segs1[j].count() by {
                assert(segs0[j].count() >= 1);
                assert(segs1[j + 1].base() == segs0[j + 1].base());
            }
            assert forall|k: u64| #[trigger] stored_bytes(segs1, k) == stored_bytes(segs0, k) by {
                lemma_segment_of_same_bases(segs1, segs0, k, segs0.len() as int);
                lemma_segment_of(segs0, k, segs0.len() as int);
                let x = segment_of(segs0, k, segs0.len() as int);
                if x >= 0 && x != i {
                    assert(segs1[x] == segs0[x]);
                }
            }
            assert(segs1.last().base() == segs0.last().base());
            assert(segs1.last().count() == segs0.last().count());
        }
    }

    /// A log has no gaps: every offset from the first one up to the high
    /// watermark belongs to a record, in a segment or in the cache.
    pub proof fn lemma_no_gaps(&self, k: u64)
        requires
            self.wf(),
            self.first_offset() <= k < self.spec_next(),
        ensures
            self.logical(k) is Some,
            self.spec_pending().len() == 0 ==> self.stored(k) is Some,
    {
        lemma_stored_range(self.spec_segments(), self.spec_config().segment_config, k);
    }

    /// At the high watermark there is nothing to read; just below it, once
    /// the cache is flushed, lies the last record.
    pub proof fn lemma_reads_at_the_end(&self)
        requires
            self.wf(),
        ensures
            self.stored(self.spec_next()) is None,
            self.readable(self.spec_next()) is None,
            self.spec_pending().len() == 0 && self.spec_next() > self.first_offset()
                ==> self.stored((self.spec_next() - 1) as u64) is Some,
    {
        lemma_stored_range(
            self.spec_segments(),
            self.spec_config().segment_config,
            self.spec_next(),
        );
        if self.spec_next() > 0 {
            lemma_stored_range(
                self.spec_segments(),
                self.spec_config().segment_config,
                (self.spec_next() - 1) as u64,
            );
        }
    }

    /// A full segment is no obstacle. Where the last segment holds a
    /// record, or records wait in the cache, the log takes every record
    /// that encodes and fits in a segment and in an index entry, as long as
    /// an offset is left: the last segment is rolled if it has no room.
    pub proof fn lemma_full_segment_rolls(&self, r: RecordView)
        requires
            self.wf(),
            self.spec_segments().last().count() >= 1 || self.spec_pending().len() > 0,
            record_encodes(self.stamp(r)),
            record_wire(self.stamp(r)).len() <= self.spec_config().segment_config.max_size,
            record_wire(self.stamp(r)).len() <= u32::MAX,
            self.spec_next() < u64::MAX,
        ensures
            self.takes(r),
    {
    }

    /// From the high watermark on there is nothing: no segment holds such
    /// an offset, no record waits under it, and a read finds none.
    pub proof fn lemma_nothing_from_the_end(&self, k: u64)
        requires
            self.wf(),
            k >= self.spec_next(),
        ensures
            self.stored(k) is None,
            self.logical(k) is None,
            self.readable(k) is None,
    {
        lemma_stored_range(self.spec_segments(), self.spec_config().segment_config, k);
    }

    /// What the invariant of the log says: the segments are sound and
    /// chained, so each begins where the one before it ends and is named
    /// after its first offset; the records of the cache carry the offsets
    /// that follow the last segment's; and the next offset lies behind them.
    pub proof fn lemma_invariant(&self)
        requires
            self.wf(),
        ensures
            segments_ok(self.spec_segments(), self.spec_config().segment_config),
            self.spec_next() == end_of(self.spec_segments()) + self.spec_pending().len(),
            forall|j: int|
                0 <= j < self.spec_pending().len() ==> (#[trigger] self.spec_pending()[j]).record.offset.0
                    == end_of(self.spec_segments()) + j,
            forall|i: int|
                0 <= i < self.spec_segments().len() ==> parse_decimal(
                    stem_of((#[trigger] self.spec_segments()[i]).segment.spec_name()),
                ) == Some(self.spec_segments()[i].base()),
    {
        assert forall|i: int| 0 <= i < self.spec_segments().len() implies parse_decimal(
            stem_of((#[trigger] self.spec_segments()[i]).segment.spec_name()),
        ) == Some(self.spec_segments()[i].base()) by {
            assert(self.spec_segments()[i].wf());
            self.spec_segments()[i].segment.lemma_name();
        }
    }

    /// A read finds what was appended: where the bytes that belong to an
    /// offset are the encoding of a record that decodes to itself, and they
    /// have left the cache, a read at that offset finds the record.
    pub proof fn lemma_read_finds_appended(&self, k: u64, v: RecordView)
        requires
            self.wf(),
            self.logical(k) == Some(record_wire(v)),
            record_unwire(record_wire(v)) == Some(v),
            k < end_of(self.spec_segments()),
        ensures
            self.readable(k) == Some(v),
    {
    }

    /// Replaying the files gives the log back: a sound log with an empty
    /// cache, and the sound log that is opened from the files that hold the
    /// first one's segments and indexes, have the same high watermark and
    /// answer every read alike.
    pub proof fn lemma_replay(&self, files: Seq<SegmentFile>, other: &LogStorage)
        requires
            self.wf(),
            other.wf(),
            self.spec_pending().len() == 0,
            other.spec_pending().len() == 0,
            self.spec_segments().len() == files.len(),
            other.spec_segments().len() == files.len(),
            forall|i: int| 0 <= i < files.len() ==> mirrors(self.spec_segments()[i], #[trigger] files[i]),
            forall|i: int|
                0 <= i < files.len() ==> mirrors(#[trigger] other.spec_segments()[i], files[i]),
        ensures
            self.spec_next() == other.spec_next(),
            forall|k: u64| #[trigger] self.stored(k) == other.stored(k),
            forall|k: u64| #[trigger] self.readable(k) == other.readable(k),
    {
        let a = self.spec_segments();
        reveal(mirrors);
        let b = other.spec_segments();
        assert forall|i: int| 0 <= i < a.len() implies {
            &&& (#[trigger] a[i]).base() == b[i].base()
            &&& a[i].segment.spec_data() == b[i].segment.spec_data()
            &&& a[i].index.spec_entries() == b[i].index.spec_entries()
        } by {
            assert(mirrors(a[i], files[i]));
            assert(mirrors(b[i], files[i]));
        }
        assert(a.last().base() == b.last().base());
        assert forall|k: u64| #[trigger] self.stored(k) == other.stored(k) by {
            lemma_segment_of_same_bases(a, b, k, a.len() as int);
            lemma_segment_of(a, k, a.len() as int);
            let i = segment_of(a, k, a.len() as int);
            if i >= 0 {
                assert(a[i].base() == b[i].base());
            }
        }
    }
}

/// Whether `n` is below the limit, if there is one.
fn below_limit(n: usize, limit: Option<usize>) -> (r: bool)
    ensures
        r == match limit {
            Some(m) => n < m,
            None => true,
        },
{
    match limit {
        Some(m) => n < m,
        None => true,
    }
}

/// In a sound segment, the index knows exactly the offsets from the base
/// on, and what it says of an offset is what the entry of that rank holds.
pub proof fn lemma_dense_lookup(sw: &SegmentWithIndex, k: u64)
    requires
        sw.wf(),
    ensures
        sw.index@.contains_key(k) <==> sw.base() <= k < sw.base() + sw.count(),
        sw.index@.contains_key(k) ==> sw.index@[k] == (
            sw.index.spec_entries()[k - sw.base()].position,
            sw.index.spec_entries()[k - sw.base()].size,
        ),
{
    sw.index.lemma_wf();
    let s = sw.index.spec_entries();
    lemma_map_of_sorted(s);
    if sw.base() <= k < sw.base() + sw.count() {
        assert(s[k - sw.base()].offset.0 == k);
    }
    if sw.index@.contains_key(k) {
        let i = choose|i: int| 0 <= i < s.len() && (#[trigger] s[i]).offset.0 == k;
        assert(s[i].offset.0 == sw.base() + i);
    }
}

/// A segment found among the first segments of a longer run is found in
/// the run's front alone.
pub proof fn lemma_segment_of_prefix(
    long: Seq<SegmentWithIndex>,
    short: Seq<SegmentWithIndex>,
    k: u64,
    upto: int,
)
    requires
        0 <= upto <= short.len(),
        short.len() <= long.len(),
        forall|i: int| 0 <= i < short.len() ==> long[i] == short[i],
        forall|i: int| short.len() <= i < long.len() ==> (#[trigger] long[i]).base() > k,
    ensures
        segment_of(long, k, upto) == segment_of(short, k, upto),
        upto == short.len() ==> segment_of(long, k, long.len() as int) == segment_of(
            short,
            k,
            short.len() as int,
        ),
    decreases upto,
{
    if upto > 0 {
        lemma_segment_of_prefix(long, short, k, upto - 1);
    }
    if upto == short.len() {
        lemma_segment_of_skip(long, k, long.len() as int, short.len() as int);
    }
}

/// Segments that begin behind an offset are passed over by the search.
pub proof fn lemma_segment_of_skip(segs: Seq<SegmentWithIndex>, k: u64, upto: int, from: int)
    requires
        0 <= from <= upto <= segs.len(),
        forall|i: int| from <= i < segs.len() ==> (#[trigger] segs[i]).base() > k,
    ensures
        segment_of(segs, k, upto) == segment_of(segs, k, from),
    decreases upto - from,
{
    if upto > from {
        lemma_segment_of_skip(segs, k, upto - 1, from);
    }
}

/// The search for a segment looks at the bases alone.
pub proof fn lemma_segment_of_same_bases(
    a: Seq<SegmentWithIndex>,
    b: Seq<SegmentWithIndex>,
    k: u64,
    upto: int,
)
    requires
        a.len() == b.len(),
        0 <= upto <= a.len(),
        forall|i: int| 0 <= i < a.len() ==> (#[trigger] a[i]).base() == b[i].base(),
    ensures
        segment_of(a, k, upto) == segment_of(b, k, upto),
    decreases upto,
{
    if upto > 0 {
        lemma_segment_of_same_bases(a, b, k, upto - 1);
    }
}

} // verus!
