//! Positions in a partition's log and half-open ranges of them.

use vstd::prelude::*;
use vstd::std_specs::convert::FromSpecImpl;
use crate::storage::names::{decimal_digits, decimal_text};

verus! {

/// A position in a log: a 64-bit counter that starts at zero.
#[derive(Debug, Clone, Copy, PartialEq, Eq, Structural, PartialOrd, Ord, Hash)]
pub struct LogOffset(pub u64);

impl LogOffset {
    /// The first offset of every log.
    pub fn zero() -> (r: Self)
        ensures
            r.0 == 0,
    {
        LogOffset(0)
    }

    /// The largest offset there is.
    pub fn max() -> (r: Self)
        ensures
            r.0 == u64::MAX,
    {
        LogOffset(u64::MAX)
    }

    pub fn new(offset: u64) -> (r: Self)
        ensures
            r.0 == offset,
    {
        LogOffset(offset)
    }

    /// The following offset; the largest offset is its own successor.
    pub fn next(&self) -> (r: Self)
        ensures
            r.0 == if self.0 == u64::MAX { u64::MAX as int } else { self.0 + 1 },
    {
        if self.0 == u64::MAX {
            LogOffset(u64::MAX)
        } else {
            LogOffset(self.0 + 1)
        }
    }

    /// The preceding offset, which offset zero does not have.
    pub fn prev(&self) -> (r: Option<Self>)
        ensures
            self.0 == 0 ==> r is None,
            self.0 > 0 ==> r == Some(LogOffset((self.0 - 1) as u64)),
    {
        if self.0 > 0 {
            Some(LogOffset(self.0 - 1))
        } else {
            None
        }
    }

    pub fn as_u64(&self) -> (r: u64)
        ensures
            r == self.0,
    {
        self.0
    }
}

impl LogOffset {
    /// The offset in decimal.
    pub fn to_text(&self) -> (r: String)
        ensures
            r@ == decimal_digits(self.0 as nat),
    {
        decimal_text(self.0)
    }
}

impl From<u64> for LogOffset {
    fn from(offset: u64) -> (r: LogOffset) {
        LogOffset(offset)
    }
}

impl FromSpecImpl<u64> for LogOffset {
    open spec fn obeys_from_spec() -> bool {
        true
    }

    open spec fn from_spec(offset: u64) -> LogOffset {
        LogOffset(offset)
    }
}

/// The offsets `start <= k < end`.
#[derive(Debug, Clone, Copy, PartialEq, Eq, Structural)]
pub struct OffsetRange {
    pub start: LogOffset,
    pub end: LogOffset,
}

impl OffsetRange {
    /// The number of offsets in the range, as a mathematical integer.
    pub open spec fn spec_len(self) -> int {
        if self.end.0 >= self.start.0 {
            self.end.0 - self.start.0
        } else {
            0
        }
    }

    /// Whether `offset` lies in the range.
    pub open spec fn spec_contains(self, offset: LogOffset) -> bool {
        self.start.0 <= offset.0 < self.end.0
    }

    pub fn new(start: LogOffset, end: LogOffset) -> (r: Self)
        ensures
            r.start == start,
            r.end == end,
    {
        OffsetRange { start, end }
    }

    pub fn contains(&self, offset: LogOffset) -> (r: bool)
        ensures
            r == self.spec_contains(offset),
    {
        offset.0 >= self.start.0 && offset.0 < self.end.0
    }

    pub fn len(&self) -> (r: u64)
        ensures
            r == self.spec_len(),
    {
        if self.end.0 >= self.start.0 {
            self.end.0 - self.start.0
        } else {
            0
        }
    }

    pub fn is_empty(&self) -> (r: bool)
        ensures
            r == (self.spec_len() == 0),
            r == (forall|k: LogOffset| !self.spec_contains(k)),
    {
        proof {
            if self.spec_len() > 0 {
                assert(self.spec_contains(self.start));
            }
        }
        self.len() == 0
    }
}

} // verus!
