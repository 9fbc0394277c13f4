//! The index of a segment: where in the segment each record lies.
//!
//! On disk an index is a run of entries of twenty bytes each, in the order
//! in which they were written: the record's offset and its position in the
//! segment as 64-bit numbers, its size as a 32-bit number, all little
//! endian. In memory the entries are kept in an ordered map from offset
//! to position and size. An `Index` holds both: the image of the file and
//! the map of what the image spells out.

use vstd::prelude::*;
use vstd::bytes::{
    spec_u32_from_le_bytes, spec_u32_to_le_bytes, spec_u64_from_le_bytes, spec_u64_to_le_bytes,
    u32_from_le_bytes, u32_to_le_bytes, u64_from_le_bytes, u64_to_le_bytes,
};
use vstd::slice::slice_subrange;
use std::collections::btree_map::Range;
use std::collections::BTreeMap;
use crate::base::offset::LogOffset;

verus! {

/// The size of one entry on disk, in bytes.
pub const INDEX_ENTRY_SIZE: usize = 20;

/// Where one record lies: `size` bytes from `position` on.
#[derive(Debug, Clone, Copy, PartialEq, Eq, Structural)]
pub struct IndexEntry {
    pub offset: LogOffset,
    pub position: u64,
    pub size: u32,
}

/// The twenty bytes that an entry takes on disk.
pub open spec fn encode_entry(e: IndexEntry) -> Seq<u8> {
    spec_u64_to_le_bytes(e.offset.0) + spec_u64_to_le_bytes(e.position) + spec_u32_to_le_bytes(
        e.size,
    )
}

/// The entry that twenty bytes spell out.
pub open spec fn decode_entry(b: Seq<u8>) -> IndexEntry {
    IndexEntry {
        offset: LogOffset(spec_u64_from_le_bytes(b.subrange(0, 8))),
        position: spec_u64_from_le_bytes(b.subrange(8, 16)),
        size: spec_u32_from_le_bytes(b.subrange(16, 20)),
    }
}

/// Entry number `j` of an index file's content.
pub open spec fn image_entry(image: Seq<u8>, j: int) -> IndexEntry {
    decode_entry(image.subrange(20 * j, 20 * j + 20))
}

/// The number of entries at the front of `s` whose offset is below `key`.
/// In sorted entries this is the place at which `key` belongs.
pub open spec fn rank(s: Seq<IndexEntry>, key: u64) -> int
    decreases s.len(),
{
    if s.len() == 0 || s[0].offset.0 >= key {
        0
    } else {
        1 + rank(s.drop_first(), key)
    }
}

/// Sorted entries with `e` put in: in place of the entry with its offset,
/// or else at the place that keeps the order.
pub open spec fn put(s: Seq<IndexEntry>, e: IndexEntry) -> Seq<IndexEntry> {
    let p = rank(s, e.offset.0);
    if p < s.len() && s[p].offset.0 == e.offset.0 {
        s.update(p, e)
    } else {
        s.insert(p, e)
    }
}

/// The sorted entries that the first `n` entries of an index file spell
/// out: each entry of the file is put in, in file order.
pub open spec fn entries_upto(image: Seq<u8>, n: nat) -> Seq<IndexEntry>
    decreases n,
{
    if n == 0 {
        Seq::empty()
    } else {
        put(entries_upto(image, (n - 1) as nat), image_entry(image, n - 1))
    }
}

/// The sorted entries that an index file spells out. Bytes behind the last
/// whole entry say nothing.
pub open spec fn entries_of_image(image: Seq<u8>) -> Seq<IndexEntry> {
    entries_upto(image, image.len() / 20)
}

/// What a list of entries says: for each offset the position and size of
/// the last entry listed for it.
pub open spec fn map_of_entries(s: Seq<IndexEntry>) -> Map<u64, (u64, u32)>
    decreases s.len(),
{
    if s.len() == 0 {
        Map::empty()
    } else {
        map_of_entries(s.drop_last()).insert(s.last().offset.0, (s.last().position, s.last().size))
    }
}

/// The offsets of the entries grow strictly.
pub open spec fn offsets_increase(s: Seq<IndexEntry>) -> bool {
    forall|i: int, j: int| 0 <= i < j < s.len() ==> (#[trigger] s[i]).offset.0 < (#[trigger] s[j]).offset.0
}

/// Decoding undoes encoding, and an entry takes twenty bytes.
pub proof fn lemma_entry_round_trip(e: IndexEntry)
    ensures
        encode_entry(e).len() == 20,
        decode_entry(encode_entry(e)) == e,
{
    vstd::bytes::lemma_auto_spec_u64_to_from_le_bytes();
    vstd::bytes::lemma_auto_spec_u32_to_from_le_bytes();
    let b = encode_entry(e);
    assert(b.subrange(0, 8) =~= spec_u64_to_le_bytes(e.offset.0));
    assert(b.subrange(8, 16) =~= spec_u64_to_le_bytes(e.position));
    assert(b.subrange(16, 20) =~= spec_u32_to_le_bytes(e.size));
}

/// What sorted entries say is what they hold: an offset is mapped exactly
/// when an entry carries it, and then to that entry's position and size.
pub proof fn lemma_map_of_sorted(s: Seq<IndexEntry>)
    requires
        offsets_increase(s),
    ensures
        forall|i: int|
            0 <= i < s.len() ==> map_of_entries(s).contains_key((#[trigger] s[i]).offset.0)
                && map_of_entries(s)[s[i].offset.0] == (s[i].position, s[i].size),
        forall|k: u64| #[trigger]
            map_of_entries(s).contains_key(k) ==> exists|i: int|
                0 <= i < s.len() && (#[trigger] s[i]).offset.0 == k,
    decreases s.len(),
{
    if s.len() > 0 {
        let t = s.drop_last();
        assert forall|i: int, j: int| 0 <= i < j < t.len() implies (#[trigger] t[i]).offset.0 < (
        #[trigger] t[j]).offset.0 by {
            assert(t[i] == s[i] && t[j] == s[j]);
        }
        lemma_map_of_sorted(t);
        assert forall|i: int| 0 <= i < s.len() implies map_of_entries(s).contains_key(
            (#[trigger] s[i]).offset.0,
        ) && map_of_entries(s)[s[i].offset.0] == (s[i].position, s[i].size) by {
            if i < s.len() - 1 {
                assert(t[i] == s[i]);
                assert(s[i].offset.0 < s[s.len() - 1].offset.0);
            }
        }
        assert forall|k: u64| #[trigger] map_of_entries(s).contains_key(k) implies exists|i: int|
            0 <= i < s.len() && (#[trigger] s[i]).offset.0 == k by {
            if k == s.last().offset.0 {
                assert(s[s.len() - 1].offset.0 == k);
            } else {
                assert(map_of_entries(t).contains_key(k));
                let i = choose|i: int| 0 <= i < t.len() && (#[trigger] t[i]).offset.0 == k;
                assert(s[i].offset.0 == k);
            }
        }
    }
}

/// Putting an entry into sorted entries, in place of the entry with its
/// offset or else at the place that keeps the order, keeps them sorted and
/// makes them say what they said before, and the new entry.
pub proof fn lemma_insert_sorted(s: Seq<IndexEntry>, e: IndexEntry, p: int)
    requires
        offsets_increase(s),
        0 <= p <= s.len(),
        forall|i: int| 0 <= i < p ==> (#[trigger] s[i]).offset.0 < e.offset.0,
        forall|i: int| p <= i < s.len() ==> (#[trigger] s[i]).offset.0 >= e.offset.0,
    ensures
        p == rank(s, e.offset.0),
        offsets_increase(put(s, e)),
        map_of_entries(put(s, e)) == map_of_entries(s).insert(e.offset.0, (e.position, e.size)),
{
    lemma_rank(s, e.offset.0, p);
    let replace = p < s.len() && s[p].offset.0 == e.offset.0;
    let t = if replace {
        s.update(p, e)
    } else {
        s.insert(p, e)
    };
    assert forall|i: int, j: int| 0 <= i < j < t.len() implies (#[trigger] t[i]).offset.0 < (
    #[trigger] t[j]).offset.0 by {
        if replace {
            assert(s[i].offset.0 < s[j].offset.0);
        } else {
            let si = if i < p {
                i
            } else {
                i - 1
            };
            let sj = if j < p {
                j
            } else {
                j - 1
            };
            if i != p && j != p {
                assert(s[si].offset.0 < s[sj].offset.0);
            } else if i == p {
                assert(s[sj].offset.0 >= e.offset.0);
                if sj > p {
                    assert(s[p].offset.0 < s[sj].offset.0);
                }
            } else {
                assert(s[si].offset.0 < e.offset.0);
            }
        }
    }
    lemma_map_of_sorted(s);
    lemma_map_of_sorted(t);
    let m = map_of_entries(s).insert(e.offset.0, (e.position, e.size));
    assert forall|k: u64| map_of_entries(t).contains_key(k) implies #[trigger] m.contains_key(k)
        && m[k] == map_of_entries(t)[k] by {
        let i = choose|i: int| 0 <= i < t.len() && (#[trigger] t[i]).offset.0 == k;
        if i == p {
        } else if replace {
            assert(s[i].offset.0 == k);
        } else {
            let si = if i < p {
                i
            } else {
                i - 1
            };
            assert(s[si] == t[i]);
            assert(s[si].offset.0 == k);
        }
    }
    assert forall|k: u64| m.contains_key(k) implies #[trigger] map_of_entries(t).contains_key(k) by {
        if k == e.offset.0 {
            assert(t[p].offset.0 == k);
        } else {
            let i = choose|i: int| 0 <= i < s.len() && (#[trigger] s[i]).offset.0 == k;
            if replace {
                assert(t[i] == s[i]);
            } else {
                let ti = if i < p {
                    i
                } else {
                    i + 1
                };
                assert(t[ti] == s[i]);
            }
        }
    }
    assert(map_of_entries(t) =~= m);
}

/// The place that splits sorted entries into those below `key` and the
/// rest is the rank of `key`.
pub proof fn lemma_rank(s: Seq<IndexEntry>, key: u64, p: int)
    requires
        0 <= p <= s.len(),
        forall|i: int| 0 <= i < p ==> (#[trigger] s[i]).offset.0 < key,
        forall|i: int| p <= i < s.len() ==> (#[trigger] s[i]).offset.0 >= key,
    ensures
        p == rank(s, key),
    decreases s.len(),
{
    if s.len() > 0 && s[0].offset.0 < key {
        let t = s.drop_first();
        assert(p > 0) by {
            if p == 0 {
                assert(s[0].offset.0 >= key);
            }
        }
        assert forall|i: int| 0 <= i < p - 1 implies (#[trigger] t[i]).offset.0 < key by {
            assert(t[i] == s[i + 1]);
        }
        assert forall|i: int| p - 1 <= i < t.len() implies (#[trigger] t[i]).offset.0 >= key by {
            assert(t[i] == s[i + 1]);
        }
        lemma_rank(t, key, p - 1);
    } else if s.len() > 0 {
        if p > 0 {
            assert(s[0].offset.0 < key);
        }
    }
}

/// The entries that a file spells out are sorted.
pub proof fn lemma_entries_upto_sorted(image: Seq<u8>, n: nat)
    ensures
        offsets_increase(entries_upto(image, n)),
    decreases n,
{
    if n > 0 {
        let s = entries_upto(image, (n - 1) as nat);
        let e = image_entry(image, n - 1);
        lemma_entries_upto_sorted(image, (n - 1) as nat);
        lemma_rank_splits(s, e.offset.0);
        lemma_insert_sorted(s, e, rank(s, e.offset.0));
    }
}

/// The rank of a key splits sorted entries into those below the key and
/// the rest.
pub proof fn lemma_rank_splits(s: Seq<IndexEntry>, key: u64)
    requires
        offsets_increase(s),
    ensures
        0 <= rank(s, key) <= s.len(),
        forall|i: int| 0 <= i < rank(s, key) ==> (#[trigger] s[i]).offset.0 < key,
        forall|i: int| rank(s, key) <= i < s.len() ==> (#[trigger] s[i]).offset.0 >= key,
    decreases s.len(),
{
    if s.len() > 0 && s[0].offset.0 < key {
        let t = s.drop_first();
        assert forall|i: int, j: int| 0 <= i < j < t.len() implies (#[trigger] t[i]).offset.0 < (
        #[trigger] t[j]).offset.0 by {
            assert(t[i] == s[i + 1] && t[j] == s[j + 1]);
        }
        lemma_rank_splits(t, key);
        let p = rank(s, key);
        assert forall|i: int| 0 <= i < p implies (#[trigger] s[i]).offset.0 < key by {
            if i > 0 {
                assert(t[i - 1] == s[i]);
            }
        }
        assert forall|i: int| p <= i < s.len() implies (#[trigger] s[i]).offset.0 >= key by {
            assert(t[i - 1] == s[i]);
        }
    } else if s.len() > 0 {
        assert forall|i: int| 0 <= i < s.len() implies (#[trigger] s[i]).offset.0 >= key by {
            if i > 0 {
                assert(s[0].offset.0 < s[i].offset.0);
            }
        }
    }
}

/// What a file's first entries spell out depends on the bytes of those
/// entries alone.
pub proof fn lemma_entries_prefix(a: Seq<u8>, b: Seq<u8>, n: nat)
    requires
        20 * n <= a.len(),
        20 * n <= b.len(),
        a.subrange(0, 20 * n as int) == b.subrange(0, 20 * n as int),
    ensures
        entries_upto(a, n) == entries_upto(b, n),
    decreases n,
{
    if n > 0 {
        let m: int = n - 1;
        assert(a.subrange(0, 20 * m) =~= a.subrange(0, 20 * n as int).subrange(0, 20 * m));
        assert(b.subrange(0, 20 * m) =~= b.subrange(0, 20 * n as int).subrange(0, 20 * m));
        lemma_entries_prefix(a, b, m as nat);
        assert(a.subrange(20 * m, 20 * m + 20) =~= a.subrange(0, 20 * n as int).subrange(
            20 * m,
            20 * m + 20,
        ));
        assert(b.subrange(20 * m, 20 * m + 20) =~= b.subrange(0, 20 * n as int).subrange(
            20 * m,
            20 * m + 20,
        ));
    }
}

/// What sorted entries say has one offset for each entry.
pub proof fn lemma_map_len(s: Seq<IndexEntry>)
    requires
        offsets_increase(s),
    ensures
        map_of_entries(s).dom().finite(),
        map_of_entries(s).dom().len() == s.len(),
    decreases s.len(),
{
    if s.len() > 0 {
        let t = s.drop_last();
        assert forall|i: int, j: int| 0 <= i < j < t.len() implies (#[trigger] t[i]).offset.0 < (
        #[trigger] t[j]).offset.0 by {
            assert(t[i] == s[i] && t[j] == s[j]);
        }
        lemma_map_len(t);
        lemma_map_of_sorted(t);
        let k = s.last().offset.0;
        if map_of_entries(t).contains_key(k) {
            let i = choose|i: int| 0 <= i < t.len() && (#[trigger] t[i]).offset.0 == k;
            assert(t[i] == s[i]);
            assert(s[i].offset.0 < s[s.len() - 1].offset.0);
        }
        assert(map_of_entries(s).dom() =~= map_of_entries(t).dom().insert(k));
    }
}

#[verifier::external_type_specification]
#[verifier::external_body]
#[verifier::reject_recursive_types(K)]
#[verifier::reject_recursive_types(V)]
pub struct ExRange<'a, K, V>(Range<'a, K, V>);

/// The entries that a range over an index's map still has to hand out.
pub uninterp spec fn range_holds(r: Range<u64, (u64, u32)>) -> Map<u64, (u64, u32)>;

/// The entries of `m` whose offset is at most `k`.
pub open spec fn entries_to(m: Map<u64, (u64, u32)>, k: u64) -> Map<u64, (u64, u32)> {
    m.restrict(Set::new(|x: u64| x <= k))
}

/// `BTreeMap::range` with an upper bound that is included: the range
/// holds the entries of the map whose key is at most `k`.
#[verifier::external_body]
fn range_to(m: &BTreeMap<u64, (u64, u32)>, k: u64) -> (r: Range<u64, (u64, u32)>)
    ensures
        range_holds(r) == entries_to(m@, k),
{
    m.range(..=k)
}

/// `DoubleEndedIterator::next_back` on a range of a map: the entry with
/// the greatest key leaves the range and is handed out, with its key and
/// the two parts of its value; an empty range hands out nothing.
#[verifier::external_body]
fn range_last(r: &mut Range<u64, (u64, u32)>) -> (e: Option<(u64, u64, u32)>)
    ensures
        match e {
            Some((k, p, s)) => {
                &&& range_holds(*old(r)).contains_key(k)
                &&& range_holds(*old(r))[k] == (p, s)
                &&& forall|x: u64| #[trigger] range_holds(*old(r)).contains_key(x) ==> x <= k
                &&& range_holds(*final(r)) == range_holds(*old(r)).remove(k)
            },
            None => forall|x: u64| !#[trigger] range_holds(*old(r)).contains_key(x),
        },
{
    r.next_back().map(|(k, v)| (*k, v.0, v.1))
}

/// The image of an index file together with the map of what it spells
/// out.
#[derive(Debug)]
pub struct Index {
    image: Vec<u8>,
    entries: BTreeMap<u64, (u64, u32)>,
    durable: usize,
}

impl View for Index {
    type V = Map<u64, (u64, u32)>;

    /// What the index says: for each offset it knows, the position and the
    /// size of the record.
    open spec fn view(&self) -> Map<u64, (u64, u32)> {
        map_of_entries(self.spec_entries())
    }
}

impl Index {
    /// The entries of the index, sorted by offset: what the image of the
    /// file spells out.
    pub closed spec fn spec_entries(&self) -> Seq<IndexEntry> {
        entries_of_image(self.image@)
    }

    /// The bytes of the index file.
    pub closed spec fn spec_image(&self) -> Seq<u8> {
        self.image@
    }

    /// How many bytes of the index file are known to be on disk.
    pub closed spec fn spec_durable(&self) -> nat {
        self.durable as nat
    }

    /// The image is a run of whole entries, the map in memory says what
    /// the image spells out, and no more bytes are durable than there are.
    pub closed spec fn wf(&self) -> bool {
        &&& self.image@.len() % 20 == 0
        &&& self.entries@ == map_of_entries(entries_of_image(self.image@))
        &&& self.durable <= self.image@.len()
    }

    /// The entries of a well-formed index are sorted, and replaying its
    /// image gives them back.
    pub proof fn lemma_wf(&self)
        requires
            self.wf(),
        ensures
            offsets_increase(self.spec_entries()),
            self.spec_entries() == entries_of_image(self.spec_image()),
            self.spec_image().len() % 20 == 0,
            self.spec_durable() <= self.spec_image().len(),
    {
        lemma_entries_upto_sorted(self.image@, self.image@.len() / 20);
    }

    /// An index without entries.
    pub fn create() -> (r: Self)
        ensures
            r.wf(),
            r.spec_entries() == Seq::<IndexEntry>::empty(),
            r.spec_image() == Seq::<u8>::empty(),
            r.spec_durable() == 0,
    {
        Self { image: Vec::new(), entries: BTreeMap::new(), durable: 0 }
    }

    /// The index that an index file's content spells out. Bytes behind the
    /// last whole entry are dropped from the image. All of the image counts
    /// as durable.
    pub fn open(bytes: &[u8]) -> (r: Self)
        ensures
            r.wf(),
            r.spec_entries() == entries_of_image(bytes@),
            r.spec_image() == bytes@.subrange(0, 20 * (bytes@.len() as int / 20)),
            r.spec_durable() == r.spec_image().len(),
    {
        let total: usize = bytes.len();
        let n: usize = total / 20;
        let mut r = Self { image: Vec::new(), entries: BTreeMap::new(), durable: 0 };
        let mut j: usize = 0;
        while j < n
            invariant
                j <= n,
                n == bytes@.len() / 20,
                total == bytes@.len(),
                20 * n <= total,
                r.entries@ == map_of_entries(entries_upto(bytes@, j as nat)),
                r.image@ == bytes@.subrange(0, 20 * j),
                r.durable == 0,
            decreases n - j,
        {
            let at: usize = 20 * j;
            let chunk: &[u8] = slice_subrange(bytes, at, at + 20);
            let e: IndexEntry = Self::read_entry(chunk);
            proof {
                let s = entries_upto(bytes@, j as nat);
                lemma_entries_upto_sorted(bytes@, j as nat);
                lemma_rank_splits(s, e.offset.0);
                lemma_insert_sorted(s, e, rank(s, e.offset.0));
            }
            r.entries.insert(e.offset.0, (e.position, e.size));
            r.image.extend_from_slice(chunk);
            assert(r.image@ =~= bytes@.subrange(0, 20 * (j + 1)));
            j += 1;
        }
        r.durable = r.image.len();
        proof {
            assert(r.image@.subrange(0, 20 * n) =~= bytes@.subrange(0, 20 * n));
            lemma_entries_prefix(r.image@, bytes@, n as nat);
            assert(r.image@.len() / 20 == n);
        }
        r
    }

    /// Decodes one entry from its twenty bytes.
    fn read_entry(chunk: &[u8]) -> (e: IndexEntry)
        requires
            chunk@.len() == 20,
        ensures
            e == decode_entry(chunk@),
    {
        let offset: u64 = u64_from_le_bytes(slice_subrange(chunk, 0, 8));
        let position: u64 = u64_from_le_bytes(slice_subrange(chunk, 8, 16));
        let size: u32 = u32_from_le_bytes(slice_subrange(chunk, 16, 20));
        IndexEntry { offset: LogOffset(offset), position, size }
    }

    /// Records where the record at `offset` lies: appends the entry to the
    /// image and enters it in the map. An entry for an offset that the
    /// index knows already takes the older one's place.
    pub fn append(&mut self, offset: LogOffset, position: u64, size: u32)
        requires
            old(self).wf(),
        ensures
            final(self).wf(),
            final(self)@ == old(self)@.insert(offset.0, (position, size)),
            final(self).spec_image() == old(self).spec_image() + encode_entry(
                IndexEntry { offset, position, size },
            ),
            final(self).spec_durable() == old(self).spec_durable(),
            (forall|i: int|
                0 <= i < old(self).spec_entries().len() ==> (#[trigger] old(
                    self,
                ).spec_entries()[i]).offset.0 < offset.0) ==> final(self).spec_entries() == old(
                self,
            ).spec_entries().push(IndexEntry { offset, position, size }),
    {
        let e = IndexEntry { offset, position, size };
        let ghost image0 = self.image@;
        let ghost s0 = entries_of_image(image0);
        let a: Vec<u8> = u64_to_le_bytes(offset.0);
        let b: Vec<u8> = u64_to_le_bytes(position);
        let c: Vec<u8> = u32_to_le_bytes(size);
        self.image.extend_from_slice(a.as_slice());
        self.image.extend_from_slice(b.as_slice());
        self.image.extend_from_slice(c.as_slice());
        assert(self.image@ =~= image0 + encode_entry(e));
        self.entries.insert(offset.0, (position, size));
        proof {
            lemma_entries_upto_sorted(image0, image0.len() / 20);
            lemma_rank_splits(s0, offset.0);
            lemma_insert_sorted(s0, e, rank(s0, offset.0));
            lemma_entry_round_trip(e);
            let n: int = image0.len() as int / 20;
            let image1 = self.image@;
            assert(image1.len() as int / 20 == n + 1);
            assert(image1.subrange(20 * n, 20 * n + 20) =~= encode_entry(e));
            assert(image1.subrange(0, 20 * n) =~= image0.subrange(0, 20 * n));
            lemma_entries_prefix(image1, image0, n as nat);
            assert(entries_of_image(image1) == put(s0, e));
            if forall|i: int| 0 <= i < s0.len() ==> (#[trigger] s0[i]).offset.0 < offset.0 {
                let p = rank(s0, offset.0);
                if p < s0.len() {
                    assert(s0[p].offset.0 < offset.0);
                }
                assert(s0.insert(p, e) =~= s0.push(e));
            }
        }
    }

    /// Where the record at `offset` lies, if the index knows the offset.
    pub fn lookup(&self, offset: LogOffset) -> (r: Option<(u64, u32)>)
        requires
            self.wf(),
        ensures
            r == (if self@.contains_key(offset.0) {
                Some(self@[offset.0])
            } else {
                None
            }),
    {
        match self.entries.get(&offset.0) {
            Some(v) => Some(*v),
            None => None,
        }
    }

    /// The entry with the greatest offset that is not above `offset`.
    pub fn lookup_le(&self, offset: LogOffset) -> (r: Option<(LogOffset, u64, u32)>)
        requires
            self.wf(),
        ensures
            match r {
                Some((o, position, size)) => {
                    &&& o.0 <= offset.0
                    &&& self@.contains_key(o.0)
                    &&& self@[o.0] == (position, size)
                    &&& forall|k: u64| #[trigger] self@.contains_key(k) && k <= offset.0 ==> k <= o.0
                },
                None => forall|k: u64| #[trigger] self@.contains_key(k) ==> k > offset.0,
            },
    {
        let mut range = range_to(&self.entries, offset.0);
        let ghost held = range_holds(range);
        match range_last(&mut range) {
            Some((k, position, size)) => {
                proof {
                    assert(held.contains_key(k));
                    assert forall|x: u64| #[trigger] self@.contains_key(x) && x <= offset.0 implies x
                        <= k by {
                        assert(held.contains_key(x));
                    }
                }
                Some((LogOffset(k), position, size))
            },
            None => {
                proof {
                    assert forall|x: u64| #[trigger] self@.contains_key(x) implies x > offset.0 by {
                        if x <= offset.0 {
                            assert(held.contains_key(x));
                        }
                    }
                }
                None
            },
        }
    }

    /// All entries, sorted by offset.
    pub fn entries(&self) -> (r: Vec<(LogOffset, u64, u32)>)
        requires
            self.wf(),
        ensures
            r@.len() == self.spec_entries().len(),
            forall|i: int|
                0 <= i < r@.len() ==> (#[trigger] r@[i]) == (
                    self.spec_entries()[i].offset,
                    self.spec_entries()[i].position,
                    self.spec_entries()[i].size,
                ),
    {
        let ghost s = self.spec_entries();
        proof {
            self.lemma_wf();
            lemma_map_of_sorted(s);
        }
        let n: usize = self.len();
        // From the greatest offset down, then turned round.
        let mut down: Vec<(LogOffset, u64, u32)> = Vec::new();
        let mut bound: u64 = u64::MAX;
        while down.len() < n
            invariant
                self.wf(),
                s == self.spec_entries(),
                offsets_increase(s),
                n == s.len(),
                down@.len() <= n,
                forall|j: int|
                    0 <= j < down@.len() ==> (#[trigger] down@[j]) == (
                        s[n - 1 - j].offset,
                        s[n - 1 - j].position,
                        s[n - 1 - j].size,
                    ),
                down@.len() < n ==> s[n - 1 - down@.len()].offset.0 <= bound,
                0 < down@.len() < n ==> bound < s[n - down@.len()].offset.0,
            decreases n - down@.len(),
        {
            let ghost p: int = n - down@.len();
            proof {
                lemma_map_of_sorted(s);
            }
            match self.lookup_le(LogOffset(bound)) {
                Some((o, position, size)) => {
                    proof {
                        assert(self@.contains_key(s[p - 1].offset.0));
                        let i = choose|i: int| 0 <= i < s.len() && (#[trigger] s[i]).offset.0 == o.0;
                        if i >= p {
                            if i > p {
                                assert(s[p].offset.0 < s[i].offset.0);
                            }
                        } else if i < p - 1 {
                            assert(s[i].offset.0 < s[p - 1].offset.0);
                        }
                        assert(i == p - 1);
                        if p - 1 > 0 {
                            assert(s[p - 2].offset.0 < s[p - 1].offset.0);
                        }
                    }
                    down.push((o, position, size));
                    if o.0 > 0 {
                        bound = o.0 - 1;
                    }
                },
                None => {
                    // An entry at or below the bound is left, so this
                    // cannot happen.
                    proof {
                        assert(self@.contains_key(s[p - 1].offset.0));
                    }
                    down.push((LogOffset(0), 0, 0));
                },
            }
        }
        let mut out: Vec<(LogOffset, u64, u32)> = Vec::new();
        let mut i: usize = 0;
        while i < n
            invariant
                i <= n,
                n == down@.len(),
                out@.len() == i,
                forall|j: int| 0 <= j < i ==> (#[trigger] out@[j]) == down@[n - 1 - j],
            decreases n - i,
        {
            out.push(down[n - 1 - i]);
            i += 1;
        }
        out
    }

    /// The number of entries.
    pub fn len(&self) -> (n: usize)
        requires
            self.wf(),
        ensures
            n == self.spec_entries().len(),
    {
        proof {
            self.lemma_wf();
            lemma_map_len(self.spec_entries());
        }
        self.entries.len()
    }

    /// The entry with the greatest offset.
    pub fn last(&self) -> (r: Option<IndexEntry>)
        requires
            self.wf(),
        ensures
            r == (if self.spec_entries().len() == 0 {
                None
            } else {
                Some(self.spec_entries().last())
            }),
    {
        let ghost s = self.spec_entries();
        proof {
            self.lemma_wf();
            lemma_map_of_sorted(s);
        }
        match self.lookup_le(LogOffset(u64::MAX)) {
            Some((offset, position, size)) => {
                proof {
                    let i = choose|i: int| 0 <= i < s.len() && (#[trigger] s[i]).offset.0 == offset.0;
                    assert(self@.contains_key(s[s.len() - 1].offset.0));
                    if i < s.len() - 1 {
                        assert(s[i].offset.0 < s[s.len() - 1].offset.0);
                    }
                }
                Some(IndexEntry { offset, position, size })
            },
            None => {
                proof {
                    if s.len() > 0 {
                        assert(self@.contains_key(s[0].offset.0));
                    }
                }
                None
            },
        }
    }

    /// Records that everything written so far has reached the disk.
    pub fn sync(&mut self)
        requires
            old(self).wf(),
        ensures
            final(self).wf(),
            final(self).spec_durable() == old(self).spec_image().len(),
            final(self).spec_image() == old(self).spec_image(),
            final(self).spec_entries() == old(self).spec_entries(),
    {
        self.durable = self.image.len();
    }

    /// All bytes of the index file.
    pub fn bytes(&self) -> (r: &[u8])
        ensures
            r@ == self.spec_image(),
    {
        self.image.as_slice()
    }

    /// The bytes that have not reached the disk yet.
    pub fn unsynced(&self) -> (r: &[u8])
        requires
            self.wf(),
        ensures
            r@ == self.spec_image().subrange(
                self.spec_durable() as int,
                self.spec_image().len() as int,
            ),
    {
        slice_subrange(self.image.as_slice(), self.durable, self.image.len())
    }
}

} // verus!
