//! The partitioner: which partition a record goes to.

use vstd::prelude::*;
use vstd::std_specs::hash::DefaultHasherAdditionalSpecFns;
use bytes::Bytes;
use std::collections::hash_map::DefaultHasher;
use std::hash::Hash;
use std::hash::Hasher;
use crate::base::buffer::bytes_of;
use crate::base::partition::PartitionId;
use crate::base::random::{random_u32_below, thread_generator};

verus! {

/// How records are spread over partitions.
#[derive(Debug, Clone, Copy, PartialEq, Eq, Structural)]
pub enum PartitionStrategy {
    /// One partition after the other.
    RoundRobin,
    /// By the hash of the key.
    KeyHash,
    /// At random.
    Random,
    /// All to one partition, until it is rotated.
    Sticky,
}

/// What hashing a buffer feeds to a hasher, write by write.
pub uninterp spec fn hashed_writes(key: Seq<u8>) -> Seq<Seq<u8>>;

/// `Bytes::hash`: feeds the buffer to the hasher. What is fed depends on
/// the content of the buffer alone.
#[verifier::external_body]
fn hash_buffer(key: &Bytes, hasher: &mut DefaultHasher)
    ensures
        final(hasher)@ == old(hasher)@ + hashed_writes(bytes_of(*key)),
{
    key.hash(hasher)
}

/// The hash of a key.
pub open spec fn key_hash_of(key: Seq<u8>) -> u64 {
    DefaultHasher::spec_finish(Seq::<Seq<u8>>::empty() + hashed_writes(key))
}

/// Spreads records over the partitions of a log.
#[derive(Debug)]
pub struct Partitioner {
    strategy: PartitionStrategy,
    partition_count: u32,
    round_robin_counter: u32,
    sticky_partition: u32,
}

impl Partitioner {
    pub closed spec fn spec_strategy(&self) -> PartitionStrategy {
        self.strategy
    }

    pub closed spec fn spec_count(&self) -> u32 {
        self.partition_count
    }

    /// The number of records spread round-robin so far, counted modulo
    /// 2^32.
    pub closed spec fn spec_counter(&self) -> u32 {
        self.round_robin_counter
    }

    /// The partition that sticky records go to.
    pub closed spec fn spec_sticky(&self) -> u32 {
        self.sticky_partition
    }

    /// The counter after one more record.
    pub open spec fn counter_after(c: u32) -> u32 {
        if c == u32::MAX {
            0
        } else {
            (c + 1) as u32
        }
    }

    /// A partitioner that has spread nothing yet.
    pub fn new(strategy: PartitionStrategy, partition_count: u32) -> (r: Self)
        ensures
            r.spec_strategy() == strategy,
            r.spec_count() == partition_count,
            r.spec_counter() == 0,
            r.spec_sticky() == 0,
    {
        Self { strategy, partition_count, round_robin_counter: 0, sticky_partition: 0 }
    }

    /// The partition for a record with the given key and value. A log must
    /// have a partition for a record to go to.
    pub fn partition(&mut self, key: Option<&Bytes>, value: &Bytes) -> (r: PartitionId)
        requires
            old(self).spec_count() > 0,
        ensures
            final(self).spec_strategy() == old(self).spec_strategy(),
            final(self).spec_count() == old(self).spec_count(),
            final(self).spec_sticky() == old(self).spec_sticky(),
            old(self).spec_strategy() is Sticky || r.0 < old(self).spec_count(),
            match old(self).spec_strategy() {
                PartitionStrategy::RoundRobin => r.0 == old(self).spec_counter() % old(
                    self,
                ).spec_count() && final(self).spec_counter() == Self::counter_after(
                    old(self).spec_counter(),
                ),
                PartitionStrategy::KeyHash => match key {
                    Some(k) => r.0 == key_hash_of(bytes_of(*k)) % (old(self).spec_count() as u64)
                        && final(self).spec_counter() == old(self).spec_counter(),
                    None => r.0 == old(self).spec_counter() % old(self).spec_count() && final(self).spec_counter() == Self::counter_after(old(self).spec_counter()),
                },
                PartitionStrategy::Random => final(self).spec_counter() == old(self).spec_counter(),
                PartitionStrategy::Sticky => r.0 == old(self).spec_sticky() && final(self).spec_counter() == old(self).spec_counter(),
            },
    {
        match self.strategy {
            PartitionStrategy::RoundRobin => self.round_robin(),
            PartitionStrategy::KeyHash => self.key_hash(key),
            PartitionStrategy::Random => self.random(),
            PartitionStrategy::Sticky => self.sticky(),
        }
    }

    /// The next partition in turn.
    fn round_robin(&mut self) -> (r: PartitionId)
        requires
            old(self).partition_count > 0,
        ensures
            r.0 == old(self).round_robin_counter % old(self).partition_count,
            final(self).round_robin_counter == Self::counter_after(old(self).round_robin_counter),
            final(self).strategy == old(self).strategy,
            final(self).partition_count == old(self).partition_count,
            final(self).sticky_partition == old(self).sticky_partition,
    {
        let counter: u32 = self.round_robin_counter;
        self.round_robin_counter = if counter == u32::MAX {
            0
        } else {
            counter + 1
        };
        PartitionId(counter % self.partition_count)
    }

    /// The partition that the key's hash names; a record without a key
    /// goes round-robin.
    fn key_hash(&mut self, key: Option<&Bytes>) -> (r: PartitionId)
        requires
            old(self).partition_count > 0,
        ensures
            final(self).strategy == old(self).strategy,
            final(self).partition_count == old(self).partition_count,
            final(self).sticky_partition == old(self).sticky_partition,
            match key {
                Some(k) => r.0 == key_hash_of(bytes_of(*k)) % (old(self).partition_count as u64)
                    && final(self).round_robin_counter == old(self).round_robin_counter,
                None => r.0 == old(self).round_robin_counter % old(self).partition_count && final(self).round_robin_counter == Self::counter_after(old(self).round_robin_counter),
            },
    {
        match key {
            Some(k) => {
                let mut hasher: DefaultHasher = DefaultHasher::new();
                hash_buffer(k, &mut hasher);
                let hash: u64 = hasher.finish();
                PartitionId((hash % self.partition_count as u64) as u32)
            },
            None => self.round_robin(),
        }
    }

    /// Some partition.
    fn random(&self) -> (r: PartitionId)
        requires
            self.partition_count > 0,
        ensures
            r.0 < self.partition_count,
    {
        let mut rng = thread_generator();
        PartitionId(random_u32_below(&mut rng, self.partition_count))
    }

    /// The sticky partition.
    fn sticky(&self) -> (r: PartitionId)
        ensures
            r.0 == self.sticky_partition,
    {
        PartitionId(self.sticky_partition)
    }

    /// Moves on to the next sticky partition, once a batch is complete.
    pub fn rotate_sticky(&mut self)
        requires
            old(self).spec_count() > 0,
        ensures
            final(self).spec_strategy() == old(self).spec_strategy(),
            final(self).spec_count() == old(self).spec_count(),
            final(self).spec_counter() == old(self).spec_counter(),
            final(self).spec_sticky() == (old(self).spec_sticky() + 1) % (old(self).spec_count() as int),
    {
        let next: u64 = (self.sticky_partition as u64 + 1) % (self.partition_count as u64);
        self.sticky_partition = next as u32;
    }

    /// The number of partitions.
    pub fn partition_count(&self) -> (r: u32)
        ensures
            r == self.spec_count(),
    {
        self.partition_count
    }

    /// All partitions, in ascending order.
    pub fn all_partitions(&self) -> (r: Vec<PartitionId>)
        ensures
            r@.len() == self.spec_count(),
            forall|i: int| 0 <= i < r@.len() ==> (#[trigger] r@[i]).0 == i,
    {
        let mut out: Vec<PartitionId> = Vec::new();
        let mut i: u32 = 0;
        while i < self.partition_count
            invariant
                i <= self.partition_count,
                out@.len() == i,
                forall|j: int| 0 <= j < out@.len() ==> (#[trigger] out@[j]).0 == j,
            decreases self.partition_count - i,
        {
            out.push(PartitionId(i));
            i += 1;
        }
        out
    }
}

} // verus!
