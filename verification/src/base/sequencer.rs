//! The sequencer: the epochs of the partitions that a node leads.
//!
//! When a node takes over a partition it activates the sequencer for it,
//! which begins a new epoch; when it steps down, the epoch is sealed.
//! Whether the node may lead at all is decided by consensus, not here.

use vstd::prelude::*;
use std::collections::HashMap;
use crate::base::epoch::Epoch;
use crate::base::epoch_store::{
    kept_in_order, lemma_kept_in_order, position_of, EpochMetadata, EpochStore,
};
use crate::base::partition::PartitionId;

verus! {

/// The epoch stores of a node, one for each partition it has led.
pub struct Sequencer {
    node_id: u64,
    partition_epochs: HashMap<u32, EpochStore>,
}

impl Sequencer {
    /// The node this sequencer belongs to.
    pub closed spec fn spec_node(&self) -> u64 {
        self.node_id
    }

    /// The epochs of `partition`, oldest first; none for a partition the
    /// node has never led.
    pub closed spec fn spec_epochs(&self, partition: u32) -> Seq<EpochMetadata> {
        if self.partition_epochs@.contains_key(partition) {
            self.partition_epochs@[partition]@
        } else {
            Seq::empty()
        }
    }

    /// Whether the node has ever led `partition`.
    pub closed spec fn spec_knows(&self, partition: u32) -> bool {
        self.partition_epochs@.contains_key(partition)
    }

    /// The epochs of every partition are in protocol order: numbers grow,
    /// at most the latest epoch is open, and each epoch begins behind the
    /// last offset of the one before it.
    pub open spec fn wf(&self) -> bool {
        forall|p: u32| kept_in_order(#[trigger] self.spec_epochs(p))
    }

    /// A sequencer that has led nothing yet.
    pub fn new(node_id: u64) -> (r: Self)
        ensures
            r.wf(),
            r.spec_node() == node_id,
            forall|p: u32| !r.spec_knows(p),
            forall|p: u32| #[trigger] r.spec_epochs(p) == Seq::<EpochMetadata>::empty(),
    {
        proof {
            lemma_kept_in_order(Seq::<EpochMetadata>::empty());
        }
        Self { node_id, partition_epochs: HashMap::new() }
    }

    /// Takes over `partition` at `start_offset`: begins the next epoch of
    /// the partition, with this node as its sequencer, and returns its
    /// number. An epoch of the partition that is still open is sealed
    /// first, just before the new one begins. Where the new epoch would not
    /// begin behind the one before it, or the numbers are used up, no epoch
    /// begins and the invalid epoch is returned.
    pub fn activate(&mut self, partition: PartitionId, start_offset: u64) -> (r: Epoch)
        ensures
            final(self).spec_node() == old(self).spec_node(),
            r.0 == (if EpochStore::can_begin(old(self).spec_epochs(partition.0), start_offset) {
                EpochStore::next_number(old(self).spec_epochs(partition.0))
            } else {
                0
            }),
            final(self).spec_knows(partition.0),
            final(self).spec_epochs(partition.0) == EpochStore::after_start(
                old(self).spec_epochs(partition.0),
                old(self).spec_node(),
                start_offset,
            ),
            forall|p: u32|
                p != partition.0 ==> final(self).spec_knows(p) == old(self).spec_knows(p)
                    && final(self).spec_epochs(p) == old(self).spec_epochs(p),
            old(self).wf() ==> final(self).wf(),
    {
        let mut store: EpochStore = match self.partition_epochs.remove(&partition.0) {
            Some(s) => s,
            None => EpochStore::new(),
        };
        let epoch: Epoch = store.start_epoch(self.node_id, start_offset);
        self.partition_epochs.insert(partition.0, store);
        proof {
            if old(self).wf() {
                assert(kept_in_order(old(self).spec_epochs(partition.0)));
                assert forall|p: u32| kept_in_order(#[trigger] self.spec_epochs(p)) by {
                    if p != partition.0 {
                        assert(kept_in_order(old(self).spec_epochs(p)));
                    }
                }
            }
        }
        epoch
    }

    /// Whether this node writes under the latest epoch of `partition`: the
    /// epoch is open and this node is its sequencer.
    pub open spec fn spec_writes(&self, partition: u32) -> bool {
        let s = self.spec_epochs(partition);
        s.len() > 0 && !s.last().sealed && s.last().sequencer_node == self.spec_node()
    }

    /// The epoch under which this node writes to `partition` from
    /// `start_offset` on: the latest epoch if the node writes under it
    /// already, and else the epoch that begins at `start_offset`, or the
    /// invalid epoch if none can begin there.
    pub open spec fn spec_writing_epoch(&self, partition: u32, start_offset: u64) -> u64 {
        let s = self.spec_epochs(partition);
        if self.spec_writes(partition) {
            s.last().current_epoch.0
        } else if EpochStore::can_begin(s, start_offset) {
            EpochStore::next_number(s)
        } else {
            0
        }
    }

    /// The epochs of `partition` once the node writes to it from
    /// `start_offset` on.
    pub open spec fn spec_writing_epochs(&self, partition: u32, start_offset: u64) -> Seq<
        EpochMetadata,
    > {
        if self.spec_writes(partition) {
            self.spec_epochs(partition)
        } else {
            EpochStore::after_start(self.spec_epochs(partition), self.spec_node(), start_offset)
        }
    }

    /// The epoch to stamp on the records that this node appends to
    /// `partition` from `start_offset` on. A node that writes under the
    /// partition's latest epoch already keeps it; any other node takes the
    /// partition over first, as `activate` does. The invalid epoch says
    /// that no epoch could begin.
    pub fn writing_epoch(&mut self, partition: PartitionId, start_offset: u64) -> (r: Epoch)
        ensures
            final(self).spec_node() == old(self).spec_node(),
            r.0 == old(self).spec_writing_epoch(partition.0, start_offset),
            final(self).spec_epochs(partition.0) == old(self).spec_writing_epochs(
                partition.0,
                start_offset,
            ),
            forall|p: u32|
                p != partition.0 ==> final(self).spec_knows(p) == old(self).spec_knows(p)
                    && final(self).spec_epochs(p) == old(self).spec_epochs(p),
            old(self).wf() ==> final(self).wf(),
    {
        let current: Option<EpochMetadata> = match self.partition_epochs.get(&partition.0) {
            Some(store) => store.latest(),
            None => None,
        };
        match current {
            Some(m) => {
                if !m.sealed && m.sequencer_node == self.node_id {
                    return m.current_epoch;
                }
            },
            None => {},
        }
        self.activate(partition, start_offset)
    }

    /// Takes over the epochs of `partition` as they are known from
    /// elsewhere, in place of what this sequencer holds for it: what a node
    /// does with the epochs it learns from the cluster's metadata before it
    /// takes a partition over from another node.
    pub fn adopt(&mut self, partition: PartitionId, store: EpochStore)
        ensures
            old(self).wf() && store.wf() ==> final(self).wf(),
            final(self).spec_node() == old(self).spec_node(),
            final(self).spec_knows(partition.0),
            final(self).spec_epochs(partition.0) == store@,
            forall|p: u32|
                p != partition.0 ==> final(self).spec_knows(p) == old(self).spec_knows(p)
                    && final(self).spec_epochs(p) == old(self).spec_epochs(p),
    {
        self.partition_epochs.insert(partition.0, store);
        proof {
            if old(self).wf() && store.wf() {
                assert forall|p: u32| kept_in_order(#[trigger] self.spec_epochs(p)) by {
                    if p != partition.0 {
                        assert(kept_in_order(old(self).spec_epochs(p)));
                    }
                }
            }
        }
    }

    /// The latest epoch of `partition`.
    pub fn current_epoch(&self, partition: PartitionId) -> (r: Option<Epoch>)
        ensures
            r == (if self.spec_epochs(partition.0).len() == 0 {
                None
            } else {
                Some(self.spec_epochs(partition.0).last().current_epoch)
            }),
    {
        match self.partition_epochs.get(&partition.0) {
            Some(store) => store.current_epoch(),
            None => None,
        }
    }

    /// Seals `epoch` of `partition` at `last_offset`, and says whether the
    /// partition has such an epoch. An epoch that is sealed already stays
    /// as it is.
    pub fn seal_epoch(&mut self, partition: PartitionId, epoch: Epoch, last_offset: u32) -> (r:
        bool)
        ensures
            final(self).spec_node() == old(self).spec_node(),
            r == (position_of(old(self).spec_epochs(partition.0), epoch, 0) < old(
                self,
            ).spec_epochs(partition.0).len()),
            r ==> final(self).spec_epochs(partition.0) == old(self).spec_epochs(partition.0).update(
                position_of(old(self).spec_epochs(partition.0), epoch, 0),
                old(self).spec_epochs(partition.0)[position_of(
                    old(self).spec_epochs(partition.0),
                    epoch,
                    0,
                )].closed_at(last_offset),
            ),
            !r ==> final(self).spec_epochs(partition.0) == old(self).spec_epochs(partition.0),
            forall|p: u32|
                final(self).spec_knows(p) == old(self).spec_knows(p) && (p != partition.0
                    ==> final(self).spec_epochs(p) == old(self).spec_epochs(p)),
            old(self).wf() ==> final(self).wf(),
    {
        let mut store: EpochStore = match self.partition_epochs.remove(&partition.0) {
            Some(s) => s,
            None => {
                proof {
                    assert forall|p: u32| #[trigger]
                        self.spec_epochs(p) == old(self).spec_epochs(p) by {}
                }
                return false;
            },
        };
        let sealed: bool = store.seal_epoch(epoch, last_offset);
        self.partition_epochs.insert(partition.0, store);
        proof {
            if old(self).wf() {
                assert(kept_in_order(old(self).spec_epochs(partition.0)));
                assert forall|p: u32| kept_in_order(#[trigger] self.spec_epochs(p)) by {
                    if p != partition.0 {
                        assert(kept_in_order(old(self).spec_epochs(p)));
                    }
                }
            }
        }
        sealed
    }

    /// Whether records may be written under `epoch` of `partition`: the
    /// partition has the epoch, and it is not sealed.
    pub fn can_write(&self, partition: PartitionId, epoch: Epoch) -> (r: bool)
        ensures
            r == (position_of(self.spec_epochs(partition.0), epoch, 0) < self.spec_epochs(
                partition.0,
            ).len() && !self.spec_epochs(partition.0)[position_of(
                self.spec_epochs(partition.0),
                epoch,
                0,
            )].sealed),
    {
        match self.partition_epochs.get(&partition.0) {
            Some(store) => match store.get_epoch(epoch) {
                Some(m) => m.can_write(),
                None => false,
            },
            None => false,
        }
    }

    /// A copy of the epochs of `partition`, if the node has ever led it.
    pub fn get_epoch_store(&self, partition: PartitionId) -> (r: Option<EpochStore>)
        ensures
            r is Some == self.spec_knows(partition.0),
            r matches Some(s) ==> s@ == self.spec_epochs(partition.0),
    {
        match self.partition_epochs.get(&partition.0) {
            Some(store) => Some(store.duplicate()),
            None => None,
        }
    }
}

} // verus!
