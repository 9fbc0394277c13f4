//! Epochs: the generations of a partition's log.
//!
//! Every leader writes under an epoch of its own. When leadership moves, the
//! old epoch is sealed and a new one starts, so that records of two leaders
//! never mix.

use vstd::prelude::*;
use vstd::std_specs::convert::FromSpecImpl;
use vstd::string::StringExecFns;
use crate::storage::names::{decimal_digits, decimal_text};

verus! {

/// A generation number. Zero is no epoch; the first epoch is one.
#[derive(Debug, Clone, Copy, PartialEq, Eq, Structural, PartialOrd, Ord, Hash)]
pub struct Epoch(pub u64);

impl Epoch {
    /// The number that stands for no epoch.
    pub fn invalid() -> (r: Self)
        ensures
            r.0 == 0,
    {
        Epoch(0)
    }

    /// The first epoch of every partition.
    pub fn first() -> (r: Self)
        ensures
            r.0 == 1,
    {
        Epoch(1)
    }

    /// The largest epoch there is.
    pub fn max() -> (r: Self)
        ensures
            r.0 == u64::MAX,
    {
        Epoch(u64::MAX)
    }

    pub fn new(epoch: u64) -> (r: Self)
        ensures
            r.0 == epoch,
    {
        Epoch(epoch)
    }

    /// The following epoch; the largest epoch is its own successor.
    pub fn next(&self) -> (r: Self)
        ensures
            r.0 == if self.0 == u64::MAX { u64::MAX as int } else { self.0 + 1 },
    {
        if self.0 == u64::MAX {
            Epoch(u64::MAX)
        } else {
            Epoch(self.0 + 1)
        }
    }

    pub fn as_u64(&self) -> (r: u64)
        ensures
            r == self.0,
    {
        self.0
    }

    pub fn is_valid(&self) -> (r: bool)
        ensures
            r == (self.0 > 0),
    {
        self.0 > 0
    }
}

impl Epoch {
    /// The epoch as text: an `e` and the number in decimal.
    pub fn to_text(&self) -> (r: String)
        ensures
            r@ == seq!['e'] + decimal_digits(self.0 as nat),
    {
        proof {
            reveal_strlit("e");
        }
        let mut s: String = String::from_str("e");
        let digits: String = decimal_text(self.0);
        s.append(digits.as_str());
        s
    }
}

impl From<u64> for Epoch {
    fn from(epoch: u64) -> (r: Epoch) {
        Epoch(epoch)
    }
}

impl FromSpecImpl<u64> for Epoch {
    open spec fn obeys_from_spec() -> bool {
        true
    }

    open spec fn from_spec(epoch: u64) -> Epoch {
        Epoch(epoch)
    }
}

/// An epoch together with an offset counted from the epoch's start.
///
/// The pair packs into one 64-bit sequence number: the epoch in the upper
/// half, the offset in the lower.
#[derive(Debug, Clone, Copy, PartialEq, Eq, Structural, PartialOrd, Ord, Hash)]
pub struct EpochOffset {
    pub epoch: Epoch,
    pub offset: u32,
}

/// The sequence number that packs `epoch` and `offset`. Only the lower 32
/// bits of the epoch find room in it.
pub open spec fn pack_lsn(epoch: u64, offset: u32) -> u64 {
    (epoch << 32) | (offset as u64)
}

impl EpochOffset {
    /// `self` comes before `other`: its epoch is lower, or equal with a
    /// lower offset.
    pub open spec fn lex_lt(self, other: EpochOffset) -> bool {
        self.epoch.0 < other.epoch.0 || (self.epoch.0 == other.epoch.0 && self.offset
            < other.offset)
    }

    /// The pair that stands for no position.
    pub fn invalid() -> (r: Self)
        ensures
            r.epoch.0 == 0,
            r.offset == 0,
    {
        EpochOffset { epoch: Epoch(0), offset: 0 }
    }

    pub fn new(epoch: Epoch, offset: u32) -> (r: Self)
        ensures
            r.epoch == epoch,
            r.offset == offset,
    {
        EpochOffset { epoch, offset }
    }

    /// Unpacks a sequence number: the upper half is the epoch, the lower
    /// half the offset.
    pub fn from_lsn(lsn: u64) -> (r: Self)
        ensures
            r.epoch.0 == lsn >> 32,
            r.offset == (lsn & 0xFFFF_FFFF) as u32,
            pack_lsn(r.epoch.0, r.offset) == lsn,
    {
        let epoch: u64 = lsn >> 32;
        let low: u64 = lsn & 0xFFFF_FFFF;
        let offset: u32 = low as u32;
        assert(((lsn >> 32) << 32) | ((lsn & 0xFFFF_FFFF) as u32 as u64) == lsn) by (bit_vector);
        EpochOffset { epoch: Epoch(epoch), offset }
    }

    /// Packs the pair into a sequence number.
    pub fn to_lsn(&self) -> (r: u64)
        ensures
            r == pack_lsn(self.epoch.0, self.offset),
    {
        (self.epoch.0 << 32) | (self.offset as u64)
    }

    /// The following offset in the same epoch; the largest offset is its own
    /// successor.
    pub fn next(&self) -> (r: Self)
        ensures
            r.epoch == self.epoch,
            r.offset == if self.offset == u32::MAX { u32::MAX as int } else { self.offset + 1 },
    {
        let offset: u32 = if self.offset == u32::MAX {
            u32::MAX
        } else {
            self.offset + 1
        };
        EpochOffset { epoch: self.epoch, offset }
    }

    pub fn is_valid(&self) -> (r: bool)
        ensures
            r == (self.epoch.0 > 0),
    {
        self.epoch.is_valid()
    }
}

impl EpochOffset {
    /// The pair as text: the epoch, a colon, and the offset in decimal.
    pub fn to_text(&self) -> (r: String)
        ensures
            r@ == seq!['e'] + decimal_digits(self.epoch.0 as nat) + seq![':'] + decimal_digits(
                self.offset as nat,
            ),
    {
        proof {
            reveal_strlit(":");
        }
        let mut s: String = self.epoch.to_text();
        s.append(":");
        let digits: String = decimal_text(self.offset as u64);
        s.append(digits.as_str());
        s
    }
}

/// Packing a pair and unpacking the result gives the pair back, for every
/// epoch that fits in 32 bits.
pub proof fn lemma_lsn_round_trip(epoch: u64, offset: u32)
    requires
        epoch <= 0xFFFF_FFFF,
    ensures
        pack_lsn(epoch, offset) >> 32 == epoch,
        (pack_lsn(epoch, offset) & 0xFFFF_FFFF) as u32 == offset,
{
    assert(((epoch << 32) | (offset as u64)) >> 32 == epoch) by (bit_vector)
        requires
            epoch <= 0xFFFF_FFFF,
    ;
    assert((((epoch << 32) | (offset as u64)) & 0xFFFF_FFFF) as u32 == offset) by (bit_vector);
}

/// Sequence numbers sort as their pairs do: for epochs that fit in 32 bits,
/// one pair comes before another exactly when its sequence number is smaller.
pub proof fn lemma_lsn_order(a: EpochOffset, b: EpochOffset)
    requires
        a.epoch.0 <= 0xFFFF_FFFF,
        b.epoch.0 <= 0xFFFF_FFFF,
    ensures
        a.lex_lt(b) <==> pack_lsn(a.epoch.0, a.offset) < pack_lsn(b.epoch.0, b.offset),
{
    let ae = a.epoch.0;
    let ao = a.offset;
    let be = b.epoch.0;
    let bo = b.offset;
    assert((ae < be || (ae == be && ao < bo)) <==> ((ae << 32) | (ao as u64)) < ((be << 32) | (
    bo as u64))) by (bit_vector)
        requires
            ae <= 0xFFFF_FFFF,
            be <= 0xFFFF_FFFF,
    ;
}

} // verus!
