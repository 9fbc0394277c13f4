//! The epochs of one partition, oldest first.

use vstd::prelude::*;
use crate::base::epoch::{Epoch, EpochOffset};

verus! {

/// What is known of one epoch.
#[derive(Debug, Clone, Copy, PartialEq, Eq, Structural)]
pub struct EpochMetadata {
    /// The epoch's number.
    pub current_epoch: Epoch,
    /// The node that writes under this epoch.
    pub sequencer_node: u64,
    /// The offset in the partition's log at which the epoch begins.
    pub start_offset: u64,
    /// Whether the epoch is closed for writing.
    pub sealed: bool,
    /// Once sealed: the last offset written, counted from the epoch's start.
    pub last_known_offset: Option<u32>,
}

impl EpochMetadata {
    /// The metadata of an epoch that has just begun.
    pub fn new(epoch: Epoch, sequencer_node: u64, start_offset: u64) -> (r: Self)
        ensures
            r == Self::spec_new(epoch, sequencer_node, start_offset),
    {
        Self {
            current_epoch: epoch,
            sequencer_node,
            start_offset,
            sealed: false,
            last_known_offset: None,
        }
    }

    pub open spec fn spec_new(epoch: Epoch, sequencer_node: u64, start_offset: u64) -> Self {
        Self {
            current_epoch: epoch,
            sequencer_node,
            start_offset,
            sealed: false,
            last_known_offset: None,
        }
    }

    /// The same epoch, closed at `last_offset`.
    pub open spec fn spec_sealed(self, last_offset: u32) -> Self {
        Self { sealed: true, last_known_offset: Some(last_offset), ..self }
    }

    /// Closes the epoch for writing and records its last offset.
    pub fn seal(&mut self, last_offset: u32)
        ensures
            *final(self) == old(self).spec_sealed(last_offset),
    {
        self.sealed = true;
        self.last_known_offset = Some(last_offset);
    }

    /// Whether records may still be written under this epoch.
    pub fn can_write(&self) -> (r: bool)
        ensures
            r == !self.sealed,
    {
        !self.sealed
    }

    /// The first offset of the partition's log that lies behind this epoch,
    /// once the epoch is sealed.
    pub open spec fn end_offset(self) -> int {
        self.start_offset + self.last_known_offset->0 + 1
    }

    /// The epoch is sealed and its last offset is known.
    pub open spec fn closed(self) -> bool {
        self.sealed && self.last_known_offset is Some
    }

    /// The epoch as it is once it is closed: a closed epoch stays as it is,
    /// an open one is sealed at `last_offset`.
    pub open spec fn closed_at(self, last_offset: u32) -> Self {
        if self.closed() {
            self
        } else {
            self.spec_sealed(last_offset)
        }
    }

    /// The last offset that an open epoch gets when an epoch that begins at
    /// `start_offset` follows it: the offset just before `start_offset`,
    /// counted from this epoch's start, as far as 32 bits reach.
    pub open spec fn last_before(self, start_offset: u64) -> u32 {
        let gap = start_offset - self.start_offset - 1;
        if gap > u32::MAX {
            u32::MAX
        } else if gap < 0 {
            0
        } else {
            gap as u32
        }
    }

    /// Whether an epoch that begins at `start_offset` can follow this one:
    /// a number is left for it, and it begins behind this epoch, that is
    /// behind its last offset where that is known and behind its start
    /// where it is not.
    pub open spec fn precedes(self, start_offset: u64) -> bool {
        &&& self.current_epoch.0 < u64::MAX
        &&& if self.closed() {
            start_offset >= self.end_offset()
        } else {
            start_offset > self.start_offset
        }
    }
}

/// The position of the first epoch numbered `epoch` at or after `from`, or
/// the length of `s` if there is none.
pub open spec fn position_of(s: Seq<EpochMetadata>, epoch: Epoch, from: int) -> int
    decreases s.len() - from,
{
    if from < 0 || from >= s.len() {
        s.len() as int
    } else if s[from].current_epoch == epoch {
        from
    } else {
        position_of(s, epoch, from + 1)
    }
}

/// The position of the last epoch before `upto` that begins at or before
/// `offset`, or -1 if there is none.
pub open spec fn covering(s: Seq<EpochMetadata>, offset: u64, upto: int) -> int
    decreases upto,
{
    if upto <= 0 || upto > s.len() {
        -1
    } else if s[upto - 1].start_offset <= offset {
        upto - 1
    } else {
        covering(s, offset, upto - 1)
    }
}

/// Epoch numbers grow strictly along the list.
pub open spec fn numbers_increase(s: Seq<EpochMetadata>) -> bool {
    forall|i: int, j: int|
        0 <= i < j < s.len() ==> (#[trigger] s[i]).current_epoch.0 < (#[trigger] s[j]).current_epoch.0
}

/// The order that the failover protocol keeps: numbers grow, every epoch
/// but the last is sealed, and each epoch begins behind the last offset of
/// the one before it.
pub open spec fn protocol_order(s: Seq<EpochMetadata>) -> bool {
    &&& numbers_increase(s)
    &&& forall|i: int|
        0 <= i < s.len() - 1 ==> {
            &&& (#[trigger] s[i]).sealed
            &&& s[i].last_known_offset is Some
            &&& s[i + 1].start_offset >= s[i].end_offset()
        }
}

/// The epochs `s` are in protocol order. This says what `protocol_order`
/// says and is unfolded only on demand, by `lemma_kept_in_order`.
#[verifier::opaque]
pub open spec fn kept_in_order(s: Seq<EpochMetadata>) -> bool {
    protocol_order(s)
}

/// Epochs are kept in order exactly when they are in protocol order.
pub proof fn lemma_kept_in_order(s: Seq<EpochMetadata>)
    ensures
        kept_in_order(s) == protocol_order(s),
{
    reveal(kept_in_order);
}

/// The epoch offset that `offset` has in `s`, if an epoch covers it and the
/// distance from the epoch's start fits in 32 bits.
pub open spec fn epoch_offset_of(s: Seq<EpochMetadata>, offset: u64) -> Option<EpochOffset> {
    let i = covering(s, offset, s.len() as int);
    if i < 0 || offset - s[i].start_offset > u32::MAX {
        None
    } else {
        Some(EpochOffset { epoch: s[i].current_epoch, offset: (offset - s[i].start_offset) as u32 })
    }
}

/// The offset in the partition's log that `eo` names in `s`, if `s` holds
/// the epoch and the sum fits in 64 bits.
pub open spec fn global_offset_of(s: Seq<EpochMetadata>, eo: EpochOffset) -> Option<u64> {
    let i = position_of(s, eo.epoch, 0);
    if i >= s.len() || s[i].start_offset + eo.offset > u64::MAX {
        None
    } else {
        Some((s[i].start_offset + eo.offset) as u64)
    }
}

/// The epochs of one partition, in the order in which they began.
#[derive(Debug, Clone)]
pub struct EpochStore {
    epochs: Vec<EpochMetadata>,
}

impl View for EpochStore {
    type V = Seq<EpochMetadata>;

    closed spec fn view(&self) -> Seq<EpochMetadata> {
        self.epochs@
    }
}

impl EpochStore {
    /// The invariant of the failover protocol: the epochs are in protocol
    /// order. A new store has it, and starting and sealing epochs keep it;
    /// only what is written through `get_epoch_mut` can break it.
    pub open spec fn wf(&self) -> bool {
        kept_in_order(self@)
    }

    /// A store without epochs.
    pub fn new() -> (r: Self)
        ensures
            r.wf(),
            r@ == Seq::<EpochMetadata>::empty(),
    {
        proof {
            lemma_kept_in_order(Seq::<EpochMetadata>::empty());
        }
        Self { epochs: Vec::new() }
    }

    /// A second store with the same epochs.
    pub fn duplicate(&self) -> (r: Self)
        ensures
            r@ == self@,
    {
        let mut epochs: Vec<EpochMetadata> = Vec::new();
        let n: usize = self.epochs.len();
        let mut i: usize = 0;
        while i < n
            invariant
                i <= n,
                n == self.epochs@.len(),
                epochs@ == self.epochs@.subrange(0, i as int),
            decreases n - i,
        {
            epochs.push(self.epochs[i]);
            i += 1;
        }
        Self { epochs }
    }

    /// The number the next epoch gets: one more than the last, or one.
    pub open spec fn next_number(s: Seq<EpochMetadata>) -> u64 {
        if s.len() == 0 {
            1
        } else if s.last().current_epoch.0 == u64::MAX {
            u64::MAX
        } else {
            (s.last().current_epoch.0 + 1) as u64
        }
    }

    /// Whether an epoch can begin at `start_offset` behind the epochs `s`.
    pub open spec fn can_begin(s: Seq<EpochMetadata>, start_offset: u64) -> bool {
        s.len() == 0 || s.last().precedes(start_offset)
    }

    /// The epochs after an epoch has begun at `start_offset` under
    /// `sequencer_node`: the latest epoch is closed, just before the new
    /// one begins if it was still open, and the new epoch follows it.
    /// Where no epoch can begin the epochs stay as they are.
    pub open spec fn after_start(
        s: Seq<EpochMetadata>,
        sequencer_node: u64,
        start_offset: u64,
    ) -> Seq<EpochMetadata> {
        let fresh = EpochMetadata::spec_new(
            Epoch(Self::next_number(s)),
            sequencer_node,
            start_offset,
        );
        if !Self::can_begin(s, start_offset) {
            s
        } else if s.len() == 0 {
            seq![fresh]
        } else {
            s.update(
                s.len() - 1,
                s.last().closed_at(s.last().last_before(start_offset)),
            ).push(fresh)
        }
    }

    /// Begins a new, unsealed epoch that `sequencer_node` writes under from
    /// `start_offset` on, and returns its number. An epoch that is still
    /// open is sealed first, just before the new one begins, so that at most
    /// one epoch is open. Where the new epoch would not begin behind the one
    /// before it, or the numbers are used up, no epoch begins: the store
    /// stays as it is and the invalid epoch is returned.
    pub fn start_epoch(&mut self, sequencer_node: u64, start_offset: u64) -> (r: Epoch)
        ensures
            r.0 == (if Self::can_begin(old(self)@, start_offset) {
                Self::next_number(old(self)@)
            } else {
                0
            }),
            final(self)@ == Self::after_start(old(self)@, sequencer_node, start_offset),
            old(self).wf() ==> final(self).wf(),
    {
        proof {
            lemma_start_keeps_order(old(self)@, sequencer_node, start_offset);
        }
        let n: usize = self.epochs.len();
        if n == 0 {
            let epoch: Epoch = Epoch::first();
            self.epochs.push(EpochMetadata::new(epoch, sequencer_node, start_offset));
            assert(self.epochs@ =~= seq![
                EpochMetadata::spec_new(Epoch(1), sequencer_node, start_offset),
            ]);
            return epoch;
        }
        let mut last: EpochMetadata = self.epochs[n - 1];
        if last.current_epoch.0 == u64::MAX {
            return Epoch::invalid();
        }
        let is_closed: bool = last.sealed && last.last_known_offset.is_some();
        if is_closed {
            let reach: u128 = last.start_offset as u128 + last.last_known_offset.unwrap() as u128
                + 1;
            if (start_offset as u128) < reach {
                return Epoch::invalid();
            }
        } else {
            if start_offset <= last.start_offset {
                return Epoch::invalid();
            }
            let gap: u64 = start_offset - last.start_offset - 1;
            let at: u32 = if gap > u32::MAX as u64 {
                u32::MAX
            } else {
                gap as u32
            };
            last.seal(at);
            self.epochs.set(n - 1, last);
        }
        let epoch: Epoch = last.current_epoch.next();
        self.epochs.push(EpochMetadata::new(epoch, sequencer_node, start_offset));
        epoch
    }

    /// The position of the first epoch numbered `epoch`.
    fn find(&self, epoch: Epoch) -> (i: usize)
        ensures
            i == position_of(self@, epoch, 0),
            i <= self@.len(),
    {
        let n: usize = self.epochs.len();
        let mut i: usize = 0;
        while i < n
            invariant
                i <= n,
                n == self.epochs@.len(),
                position_of(self.epochs@, epoch, i as int) == position_of(self.epochs@, epoch, 0),
            decreases n - i,
        {
            if self.epochs[i].current_epoch.0 == epoch.0 {
                return i;
            }
            i += 1;
        }
        i
    }

    /// The metadata of `epoch`, if the store holds it.
    pub fn get_epoch(&self, epoch: Epoch) -> (r: Option<&EpochMetadata>)
        ensures
            r == (if position_of(self@, epoch, 0) < self@.len() {
                Some(&self@[position_of(self@, epoch, 0)])
            } else {
                None
            }),
    {
        let i: usize = self.find(epoch);
        if i < self.epochs.len() {
            Some(&self.epochs[i])
        } else {
            None
        }
    }

    /// The metadata of `epoch` for changing in place, if the store holds it.
    /// What the caller writes through the reference is what the store holds
    /// afterwards.
    pub fn get_epoch_mut(&mut self, epoch: Epoch) -> (r: Option<&mut EpochMetadata>)
        ensures
            match r {
                Some(m) => {
                    &&& position_of(old(self)@, epoch, 0) < old(self)@.len()
                    &&& *m == old(self)@[position_of(old(self)@, epoch, 0)]
                    &&& final(self)@ == old(self)@.update(
                        position_of(old(self)@, epoch, 0),
                        *final(m),
                    )
                },
                None => {
                    &&& position_of(old(self)@, epoch, 0) >= old(self)@.len()
                    &&& final(self)@ == old(self)@
                },
            },
    {
        let i: usize = self.find(epoch);
        if i < self.epochs.len() {
            Some(&mut self.epochs[i])
        } else {
            None
        }
    }

    /// What is known of the latest epoch.
    pub fn latest(&self) -> (r: Option<EpochMetadata>)
        ensures
            r == (if self@.len() == 0 {
                None
            } else {
                Some(self@.last())
            }),
    {
        let n: usize = self.epochs.len();
        if n == 0 {
            None
        } else {
            Some(self.epochs[n - 1])
        }
    }

    /// The number of the latest epoch.
    pub fn current_epoch(&self) -> (r: Option<Epoch>)
        ensures
            r == (if self@.len() == 0 {
                None
            } else {
                Some(self@.last().current_epoch)
            }),
    {
        let n: usize = self.epochs.len();
        if n == 0 {
            None
        } else {
            Some(self.epochs[n - 1].current_epoch)
        }
    }

    /// Seals `epoch` at `last_offset`. Returns whether the store holds the
    /// epoch. An epoch that is sealed already, with its last offset known,
    /// stays as it is: sealing again changes nothing.
    pub fn seal_epoch(&mut self, epoch: Epoch, last_offset: u32) -> (r: bool)
        ensures
            r == (position_of(old(self)@, epoch, 0) < old(self)@.len()),
            r ==> final(self)@ == old(self)@.update(
                position_of(old(self)@, epoch, 0),
                old(self)@[position_of(old(self)@, epoch, 0)].closed_at(last_offset),
            ),
            !r ==> final(self)@ == old(self)@,
            old(self).wf() ==> final(self).wf(),
    {
        let i: usize = self.find(epoch);
        proof {
            if i < self.epochs@.len() {
                lemma_seal_keeps_order(old(self)@, i as int, last_offset);
            }
        }
        if i < self.epochs.len() {
            let mut m: EpochMetadata = self.epochs[i];
            if !(m.sealed && m.last_known_offset.is_some()) {
                m.seal(last_offset);
                self.epochs.set(i, m);
            } else {
                assert(self.epochs@ =~= old(self).epochs@.update(i as int, m));
            }
            true
        } else {
            false
        }
    }

    /// The position of the latest epoch that begins at or before `offset`.
    fn find_covering(&self, global_offset: u64) -> (r: Option<usize>)
        ensures
            match r {
                Some(i) => i == covering(self@, global_offset, self@.len() as int),
                None => covering(self@, global_offset, self@.len() as int) == -1,
            },
            covering(self@, global_offset, self@.len() as int) < self@.len(),
    {
        let mut i: usize = self.epochs.len();
        while i > 0
            invariant
                i <= self.epochs@.len(),
                covering(self.epochs@, global_offset, i as int) == covering(
                    self.epochs@,
                    global_offset,
                    self.epochs@.len() as int,
                ),
            decreases i,
        {
            if self.epochs[i - 1].start_offset <= global_offset {
                return Some(i - 1);
            }
            i -= 1;
        }
        None
    }

    /// The epoch that `global_offset` falls in: the latest epoch that begins
    /// at or before it.
    pub fn epoch_for_offset(&self, global_offset: u64) -> (r: Option<Epoch>)
        ensures
            r == (if covering(self@, global_offset, self@.len() as int) < 0 {
                None
            } else {
                Some(self@[covering(self@, global_offset, self@.len() as int)].current_epoch)
            }),
    {
        match self.find_covering(global_offset) {
            Some(i) => Some(self.epochs[i].current_epoch),
            None => None,
        }
    }

    /// Splits an offset of the partition's log into its epoch and the
    /// distance from the epoch's start.
    pub fn to_epoch_offset(&self, global_offset: u64) -> (r: Option<EpochOffset>)
        ensures
            r == epoch_offset_of(self@, global_offset),
    {
        match self.find_covering(global_offset) {
            Some(i) => {
                let m: EpochMetadata = self.epochs[i];
                proof {
                    lemma_covering_starts_before(self@, global_offset, self@.len() as int);
                }
                let distance: u64 = global_offset - m.start_offset;
                if distance > u32::MAX as u64 {
                    None
                } else {
                    Some(EpochOffset::new(m.current_epoch, distance as u32))
                }
            },
            None => None,
        }
    }

    /// Joins an epoch and an offset within it into an offset of the
    /// partition's log.
    pub fn to_global_offset(&self, epoch_offset: EpochOffset) -> (r: Option<u64>)
        ensures
            r == global_offset_of(self@, epoch_offset),
    {
        let i: usize = self.find(epoch_offset.epoch);
        if i < self.epochs.len() {
            self.epochs[i].start_offset.checked_add(epoch_offset.offset as u64)
        } else {
            None
        }
    }
}

impl Default for EpochStore {
    fn default() -> (r: Self)
        ensures
            r.wf(),
            r@ == Seq::<EpochMetadata>::empty(),
    {
        Self::new()
    }
}

/// The epoch that covers an offset begins at or before it.
pub proof fn lemma_covering_starts_before(s: Seq<EpochMetadata>, offset: u64, upto: int)
    requires
        0 <= upto <= s.len(),
    ensures
        -1 <= covering(s, offset, upto) < upto,
        covering(s, offset, upto) >= 0 ==> s[covering(s, offset, upto)].start_offset <= offset,
        forall|j: int| covering(s, offset, upto) < j < upto ==> (#[trigger] s[j]).start_offset > offset,
    decreases upto,
{
    if upto > 0 && s[upto - 1].start_offset > offset {
        lemma_covering_starts_before(s, offset, upto - 1);
    }
}

/// Where the search for an epoch number ends: at the first epoch with that
/// number, or at the end of the list.
pub proof fn lemma_position_of(s: Seq<EpochMetadata>, epoch: Epoch, from: int)
    requires
        0 <= from <= s.len(),
    ensures
        from <= position_of(s, epoch, from) <= s.len(),
        position_of(s, epoch, from) < s.len() ==> s[position_of(s, epoch, from)].current_epoch
            == epoch,
        forall|j: int| from <= j < position_of(s, epoch, from) ==> (#[trigger] s[j]).current_epoch != epoch,
    decreases s.len() - from,
{
    if from < s.len() && s[from].current_epoch != epoch {
        lemma_position_of(s, epoch, from + 1);
    }
}

/// In a store kept in protocol order, the start offsets grow strictly.
pub proof fn lemma_starts_increase(s: Seq<EpochMetadata>, i: int, j: int)
    requires
        protocol_order(s),
        0 <= i < j < s.len(),
    ensures
        s[i].sealed,
        s[i].last_known_offset is Some,
        s[j].start_offset >= s[i].end_offset(),
        s[j].start_offset > s[i].start_offset,
    decreases j - i,
{
    if i + 1 < j {
        lemma_starts_increase(s, i, j - 1);
    }
}

/// Of any two epochs of a partition kept in protocol order, the earlier one
/// is sealed and the later one begins behind the earlier one's last offset.
pub proof fn lemma_earlier_epochs_sealed(s: Seq<EpochMetadata>, i: int, j: int)
    requires
        protocol_order(s),
        0 <= i < s.len(),
        0 <= j < s.len(),
        s[i].current_epoch.0 < s[j].current_epoch.0,
    ensures
        s[i].sealed,
        s[j].start_offset >= s[i].last_known_offset->0 + 1,
        s[j].start_offset >= s[i].end_offset(),
{
    if i < j {
        lemma_starts_increase(s, i, j);
    }
}

/// Starting an epoch keeps the protocol order, whatever the new epoch's
/// start and whether or not the epoch before it was sealed.
pub proof fn lemma_start_keeps_order(s: Seq<EpochMetadata>, node: u64, start_offset: u64)
    ensures
        protocol_order(s) ==> protocol_order(EpochStore::after_start(s, node, start_offset)),
        kept_in_order(s) ==> kept_in_order(EpochStore::after_start(s, node, start_offset)),
{
    reveal(kept_in_order);
    let t = EpochStore::after_start(s, node, start_offset);
    if protocol_order(s) && EpochStore::can_begin(s, start_offset) && s.len() > 0 {
        let n = s.len() as int;
        let closed = s.last().closed_at(s.last().last_before(start_offset));
        assert(closed.current_epoch == s.last().current_epoch);
        assert(closed.closed());
        assert(start_offset >= closed.end_offset());
        assert forall|i: int, j: int| 0 <= i < j < t.len() implies (#[trigger] t[i]).current_epoch.0
            < (#[trigger] t[j]).current_epoch.0 by {
            if j < n {
                assert(s[i].current_epoch.0 < s[j].current_epoch.0);
            } else if i < n - 1 {
                assert(s[i].current_epoch.0 < s[n - 1].current_epoch.0);
            }
        }
        assert forall|i: int| 0 <= i < t.len() - 1 implies {
            &&& (#[trigger] t[i]).sealed
            &&& t[i].last_known_offset is Some
            &&& t[i + 1].start_offset >= t[i].end_offset()
        } by {
            if i < n - 1 {
                assert(s[i].sealed);
                assert(t[i] == s[i]);
                if i + 1 < n - 1 {
                    assert(t[i + 1] == s[i + 1]);
                } else {
                    assert(t[i + 1].start_offset == s[i + 1].start_offset);
                }
            }
        }
    }
}

/// Sealing an epoch keeps the protocol order, whichever epoch it is and
/// whatever the last offset.
pub proof fn lemma_seal_keeps_order(s: Seq<EpochMetadata>, i: int, last_offset: u32)
    requires
        0 <= i < s.len(),
    ensures
        protocol_order(s) ==> protocol_order(s.update(i, s[i].closed_at(last_offset))),
        kept_in_order(s) ==> kept_in_order(s.update(i, s[i].closed_at(last_offset))),
{
    reveal(kept_in_order);
    let t = s.update(i, s[i].closed_at(last_offset));
    if !protocol_order(s) {
    } else if i < s.len() - 1 {
        assert(s[i].sealed);
        assert(t =~= s);
    } else {
        assert forall|a: int, b: int| 0 <= a < b < t.len() implies (#[trigger] t[a]).current_epoch.0
            < (#[trigger] t[b]).current_epoch.0 by {
            assert(s[a].current_epoch.0 < s[b].current_epoch.0);
        }
        assert forall|k: int| 0 <= k < t.len() - 1 implies {
            &&& (#[trigger] t[k]).sealed
            &&& t[k].last_known_offset is Some
            &&& t[k + 1].start_offset >= t[k].end_offset()
        } by {
            assert(s[k].sealed);
            assert(t[k] == s[k]);
        }
    }
}

/// In a store kept in protocol order the current epoch is the greatest,
/// and it alone can be open.
pub proof fn lemma_current_is_greatest(s: Seq<EpochMetadata>, i: int)
    requires
        protocol_order(s),
        0 <= i < s.len(),
    ensures
        s[i].current_epoch.0 <= s.last().current_epoch.0,
        !s[i].sealed ==> i == s.len() - 1,
{
    if i < s.len() - 1 {
        assert(s[i].sealed);
    }
}

/// Offsets and their epochs sort alike: in a store kept in protocol order,
/// the epoch of an offset never falls when the offset grows. So for two
/// offsets with their epochs, one offset is smaller than the other exactly
/// when its pair of epoch and offset comes first.
pub proof fn lemma_offset_order_is_epoch_order(s: Seq<EpochMetadata>, o1: u64, o2: u64)
    requires
        protocol_order(s),
        covering(s, o1, s.len() as int) >= 0,
        covering(s, o2, s.len() as int) >= 0,
    ensures
        ({
            let e1 = s[covering(s, o1, s.len() as int)].current_epoch.0;
            let e2 = s[covering(s, o2, s.len() as int)].current_epoch.0;
            &&& o1 <= o2 ==> e1 <= e2
            &&& o1 < o2 <==> (e1 < e2 || (e1 == e2 && o1 < o2))
        }),
{
    let n = s.len() as int;
    let i1 = covering(s, o1, n);
    let i2 = covering(s, o2, n);
    lemma_covering_starts_before(s, o1, n);
    lemma_covering_starts_before(s, o2, n);
    if i1 < i2 {
        // Epoch i2 begins behind o1, or it would cover o1.
    }
}

/// The two conversions undo each other: the pair that an offset splits into
/// joins back into that offset.
pub proof fn lemma_epoch_offset_round_trip(s: Seq<EpochMetadata>, offset: u64)
    requires
        numbers_increase(s),
        epoch_offset_of(s, offset) is Some,
    ensures
        global_offset_of(s, epoch_offset_of(s, offset)->0) == Some(offset),
{
    let n = s.len() as int;
    lemma_covering_starts_before(s, offset, n);
    let eo = epoch_offset_of(s, offset)->0;
    lemma_position_of(s, eo.epoch, 0);
}

} // verus!
