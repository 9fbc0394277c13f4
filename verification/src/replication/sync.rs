//! Replication progress: how far each node has come.
//!
//! The manager notes, for every node that has reported, the highest offset
//! replicated to it, and answers the questions that waiting for replication
//! comes down to. The waiting itself is done by the embedding program,
//! which asks again whenever a node reports.

use vstd::prelude::*;
use std::collections::HashMap;
use crate::base::offset::LogOffset;

verus! {

/// How many of the first `upto` of `nodes` have reached `target`. A node
/// that has not reported has not reached anything.
pub open spec fn ready_count(offsets: Map<u64, LogOffset>, nodes: Seq<u64>, target: u64, upto: int) -> int
    decreases upto,
{
    if upto <= 0 || upto > nodes.len() {
        0
    } else {
        ready_count(offsets, nodes, target, upto - 1) + if offsets.contains_key(nodes[upto - 1])
            && offsets[nodes[upto - 1]].0 >= target {
            1int
        } else {
            0int
        }
    }
}

/// The offset of a node, zero for a node that has not reported.
pub open spec fn offset_or_zero(offsets: Map<u64, LogOffset>, node: u64) -> u64 {
    if offsets.contains_key(node) {
        offsets[node].0
    } else {
        0
    }
}

/// How many of the first `upto` of `nodes` have an offset of at least `v`,
/// counting a node that has not reported as being at zero.
pub open spec fn count_reaching(offsets: Map<u64, LogOffset>, nodes: Seq<u64>, v: u64, upto: int) -> int
    decreases upto,
{
    if upto <= 0 || upto > nodes.len() {
        0
    } else {
        count_reaching(offsets, nodes, v, upto - 1) + if offset_or_zero(offsets, nodes[upto - 1])
            >= v {
            1int
        } else {
            0int
        }
    }
}

/// `v` is the committed offset of a partition whose copies are on `nodes`
/// under a write quorum of `w`: the highest of the nodes' offsets that at
/// least `w` of the nodes have reached, or zero where no quorum can be had.
pub open spec fn is_quorum_committed(
    offsets: Map<u64, LogOffset>,
    nodes: Seq<u64>,
    w: usize,
    v: u64,
) -> bool {
    if w == 0 || w > nodes.len() {
        v == 0
    } else {
        &&& exists|i: int| 0 <= i < nodes.len() && #[trigger] offset_or_zero(offsets, nodes[i]) == v
        &&& count_reaching(offsets, nodes, v, nodes.len() as int) >= w
        &&& forall|i: int|
            0 <= i < nodes.len() && count_reaching(
                offsets,
                nodes,
                #[trigger] offset_or_zero(offsets, nodes[i]),
                nodes.len() as int,
            ) >= w ==> offset_or_zero(offsets, nodes[i]) <= v
    }
}

/// The committed offset is one offset: two offsets that both are the
/// committed offset of the same nodes under the same quorum are equal.
pub proof fn lemma_quorum_committed_is_one(
    offsets: Map<u64, LogOffset>,
    nodes: Seq<u64>,
    w: usize,
    v1: u64,
    v2: u64,
)
    requires
        is_quorum_committed(offsets, nodes, w, v1),
        is_quorum_committed(offsets, nodes, w, v2),
    ensures
        v1 == v2,
{
    if !(w == 0 || w > nodes.len()) {
        let i = choose|i: int| 0 <= i < nodes.len() && #[trigger] offset_or_zero(offsets, nodes[i]) == v1;
        let j = choose|j: int| 0 <= j < nodes.len() && #[trigger] offset_or_zero(offsets, nodes[j]) == v2;
        assert(offset_or_zero(offsets, nodes[i]) <= v2);
        assert(offset_or_zero(offsets, nodes[j]) <= v1);
    }
}

/// The progress of replication, node by node.
pub struct SyncManager {
    node_offsets: HashMap<u64, LogOffset>,
    known: Vec<u64>,
}

impl SyncManager {
    /// The offset noted for each node that has reported.
    pub closed spec fn spec_offsets(&self) -> Map<u64, LogOffset> {
        self.node_offsets@
    }

    /// The nodes that have reported, in the order of their first report.
    pub closed spec fn spec_nodes(&self) -> Seq<u64> {
        self.known@
    }

    /// The nodes listed are those with an offset, each listed once.
    pub closed spec fn wf(&self) -> bool {
        &&& self.known@.no_duplicates()
        &&& forall|n: u64| self.known@.contains(n) <==> #[trigger] self.node_offsets@.contains_key(n)
    }

    /// What `wf` says, for callers outside this module.
    pub proof fn lemma_wf(&self)
        requires
            self.wf(),
        ensures
            self.spec_nodes().no_duplicates(),
            forall|n: u64|
                self.spec_nodes().contains(n) <==> #[trigger] self.spec_offsets().contains_key(n),
    {
    }

    /// The highest offset that a node has reported, zero if none has.
    pub open spec fn spec_max(&self) -> u64
        recommends
            self.wf(),
    {
        if self.spec_nodes().len() == 0 {
            0
        } else {
            choose|v: u64| self.is_max(v)
        }
    }

    /// `v` is the highest offset that a node has reported.
    pub open spec fn is_max(&self, v: u64) -> bool {
        &&& exists|n: u64| #[trigger] self.spec_offsets().contains_key(n) && self.spec_offsets()[n].0 == v
        &&& forall|n: u64| #[trigger] self.spec_offsets().contains_key(n) ==> self.spec_offsets()[n].0 <= v
    }

    /// `v` is the lowest offset that a node has reported.
    pub open spec fn is_min(&self, v: u64) -> bool {
        &&& exists|n: u64| #[trigger] self.spec_offsets().contains_key(n) && self.spec_offsets()[n].0 == v
        &&& forall|n: u64| #[trigger] self.spec_offsets().contains_key(n) ==> self.spec_offsets()[n].0 >= v
    }

    /// No node has reported.
    pub fn new() -> (r: Self)
        ensures
            r.wf(),
            r.spec_offsets() == Map::<u64, LogOffset>::empty(),
            r.spec_nodes() == Seq::<u64>::empty(),
    {
        let r = Self { node_offsets: HashMap::new(), known: Vec::new() };
        r
    }

    /// The nodes that have reported, in the order of their first report.
    pub fn known_nodes(&self) -> (r: &Vec<u64>)
        ensures
            r@ == self.spec_nodes(),
    {
        &self.known
    }

    /// Notes that replication to `node_id` has reached `offset`.
    pub fn update_offset(&mut self, node_id: u64, offset: LogOffset)
        requires
            old(self).wf(),
        ensures
            final(self).wf(),
            final(self).spec_offsets() == old(self).spec_offsets().insert(node_id, offset),
            final(self).spec_nodes() == if old(self).spec_offsets().contains_key(node_id) {
                old(self).spec_nodes()
            } else {
                old(self).spec_nodes().push(node_id)
            },
    {
        let ghost known0 = self.known@;
        let fresh: bool = !self.node_offsets.contains_key(&node_id);
        self.node_offsets.insert(node_id, offset);
        if fresh {
            self.known.push(node_id);
            proof {
                assert forall|n: u64| self.known@.contains(n) <==> #[trigger] self.node_offsets@.contains_key(
                    n,
                ) by {
                    if n == node_id {
                        assert(self.known@[known0.len() as int] == node_id);
                    } else if known0.contains(n) {
                        let i = choose|i: int| 0 <= i < known0.len() && known0[i] == n;
                        assert(self.known@[i] == n);
                    }
                }
            }
        }
    }

    /// The offset noted for `node_id`, if the node has reported.
    pub fn get_offset(&self, node_id: u64) -> (r: Option<LogOffset>)
        ensures
            r == (if self.spec_offsets().contains_key(node_id) {
                Some(self.spec_offsets()[node_id])
            } else {
                None
            }),
    {
        match self.node_offsets.get(&node_id) {
            Some(o) => Some(*o),
            None => None,
        }
    }

    /// The offset of the node at place `i` of the list of nodes.
    fn offset_at(&self, i: usize) -> (r: u64)
        requires
            self.wf(),
            i < self.known@.len(),
        ensures
            self.node_offsets@.contains_key(self.known@[i as int]),
            r == self.node_offsets@[self.known@[i as int]].0,
    {
        let node: u64 = self.known[i];
        match self.node_offsets.get(&node) {
            Some(o) => o.0,
            None => 0,
        }
    }

    /// The lowest offset that a node has reported: what every node that
    /// reports is known to store. Zero if no node has reported.
    pub fn get_committed_offset(&self) -> (r: LogOffset)
        requires
            self.wf(),
        ensures
            self.spec_nodes().len() == 0 ==> r.0 == 0,
            self.spec_nodes().len() > 0 ==> self.is_min(r.0),
    {
        let n: usize = self.known.len();
        if n == 0 {
            return LogOffset(0);
        }
        let mut best: u64 = self.offset_at(0);
        let ghost mut at: int = 0;
        let mut i: usize = 1;
        while i < n
            invariant
                1 <= i <= n,
                n == self.known@.len(),
                self.wf(),
                0 <= at < i,
                self.node_offsets@[self.known@[at]].0 == best,
                forall|j: int| 0 <= j < i ==> #[trigger] self.node_offsets@[self.known@[j]].0 >= best,
            decreases n - i,
        {
            let o: u64 = self.offset_at(i);
            if o < best {
                best = o;
                proof {
                    at = i as int;
                }
            }
            i += 1;
        }
        proof {
            let w = self.known@[at];
            assert(self.spec_offsets().contains_key(w) && self.spec_offsets()[w].0 == best);
        }
        LogOffset(best)
    }

    /// The highest offset that a node has reported. Zero if no node has
    /// reported.
    pub fn get_high_watermark(&self) -> (r: LogOffset)
        requires
            self.wf(),
        ensures
            self.spec_nodes().len() == 0 ==> r.0 == 0,
            self.spec_nodes().len() > 0 ==> self.is_max(r.0),
            r.0 == self.spec_max(),
    {
        let n: usize = self.known.len();
        if n == 0 {
            return LogOffset(0);
        }
        let mut best: u64 = self.offset_at(0);
        let ghost mut at: int = 0;
        let mut i: usize = 1;
        while i < n
            invariant
                1 <= i <= n,
                n == self.known@.len(),
                self.wf(),
                0 <= at < i,
                self.node_offsets@[self.known@[at]].0 == best,
                forall|j: int| 0 <= j < i ==> #[trigger] self.node_offsets@[self.known@[j]].0 <= best,
            decreases n - i,
        {
            let o: u64 = self.offset_at(i);
            if o > best {
                best = o;
                proof {
                    at = i as int;
                }
            }
            i += 1;
        }
        proof {
            let w = self.known@[at];
            assert(self.spec_offsets().contains_key(w) && self.spec_offsets()[w].0 == best);
        }
        LogOffset(best)
    }

    /// How far `node_id` is behind the node that has come furthest, if the
    /// node has reported.
    pub fn get_lag(&self, node_id: u64) -> (r: Option<u64>)
        requires
            self.wf(),
        ensures
            r == (if self.spec_offsets().contains_key(node_id) {
                Some((self.spec_max() - self.spec_offsets()[node_id].0) as u64)
            } else {
                None
            }),
    {
        match self.node_offsets.get(&node_id) {
            None => None,
            Some(o) => {
                let offset: u64 = o.0;
                let max: u64 = self.get_high_watermark().0;
                Some(max - offset)
            },
        }
    }

    /// The nodes that are in sync: those that are at most `max_lag` behind
    /// the node that has come furthest, in the order of their first report.
    pub fn get_in_sync_nodes(&self, max_lag: u64) -> (r: Vec<u64>)
        requires
            self.wf(),
        ensures
            r@ == self.spec_nodes().filter(
                |n: u64| self.spec_max() - self.spec_offsets()[n].0 <= max_lag,
            ),
    {
        let max: u64 = self.get_high_watermark().0;
        let ghost pred = |n: u64| self.spec_max() - self.spec_offsets()[n].0 <= max_lag;
        let mut out: Vec<u64> = Vec::new();
        let n: usize = self.known.len();
        let mut i: usize = 0;
        while i < n
            invariant
                i <= n,
                n == self.known@.len(),
                self.wf(),
                max == self.spec_max(),
                n > 0 ==> self.is_max(max),
                pred == (|n: u64| self.spec_max() - self.spec_offsets()[n].0 <= max_lag),
                out@ == self.known@.subrange(0, i as int).filter(pred),
            decreases n - i,
        {
            let node: u64 = self.known[i];
            let o: u64 = self.offset_at(i);
            proof {
                let prefix = self.known@.subrange(0, i as int);
                let next = self.known@.subrange(0, i + 1);
                assert(next.drop_last() =~= prefix);
                reveal(Seq::filter);
            }
            if max - o <= max_lag {
                out.push(node);
            }
            i += 1;
        }
        assert(self.known@.subrange(0, n as int) =~= self.known@);
        out
    }

    /// Whether `node_id` has reached `target`: what waiting for a node's
    /// offset waits for.
    pub fn offset_reached(&self, node_id: u64, target: LogOffset) -> (r: bool)
        ensures
            r == (self.spec_offsets().contains_key(node_id) && self.spec_offsets()[node_id].0
                >= target.0),
    {
        match self.node_offsets.get(&node_id) {
            Some(o) => o.0 >= target.0,
            None => false,
        }
    }

    /// Whether at least `quorum_size` of `nodes` have reached `target`:
    /// what waiting for a quorum waits for.
    pub fn quorum_reached(&self, nodes: &Vec<u64>, target: LogOffset, quorum_size: usize) -> (r:
        bool)
        ensures
            r == (ready_count(self.spec_offsets(), nodes@, target.0, nodes@.len() as int)
                >= quorum_size),
    {
        let n: usize = nodes.len();
        let mut ready: usize = 0;
        let mut i: usize = 0;
        while i < n
            invariant
                i <= n,
                n == nodes@.len(),
                ready <= i,
                ready == ready_count(self.node_offsets@, nodes@, target.0, i as int),
            decreases n - i,
        {
            if self.offset_reached(nodes[i], target) {
                ready += 1;
            }
            i += 1;
        }
        ready >= quorum_size
    }

    /// The offset of `node`, zero if the node has not reported.
    fn offset_of(&self, node: u64) -> (r: u64)
        ensures
            r == offset_or_zero(self.spec_offsets(), node),
    {
        match self.node_offsets.get(&node) {
            Some(o) => o.0,
            None => 0,
        }
    }

    /// How many of `nodes` have an offset of at least `v`.
    fn count_at(&self, nodes: &Vec<u64>, v: u64) -> (c: usize)
        ensures
            c == count_reaching(self.spec_offsets(), nodes@, v, nodes@.len() as int),
    {
        let n: usize = nodes.len();
        let mut c: usize = 0;
        let mut i: usize = 0;
        while i < n
            invariant
                i <= n,
                n == nodes@.len(),
                c <= i,
                c == count_reaching(self.node_offsets@, nodes@, v, i as int),
            decreases n - i,
        {
            if self.offset_of(nodes[i]) >= v {
                c += 1;
            }
            i += 1;
        }
        c
    }

    /// The committed offset of a partition whose copies are on `nodes`:
    /// the highest offset that at least `write_quorum` of the nodes have
    /// reached, which is the offset of the node that comes in at place
    /// `write_quorum` when the nodes are ranked by how far they have come.
    /// Zero where no quorum can be had: for a write quorum of zero or one
    /// that exceeds the number of nodes.
    pub fn quorum_committed_offset(&self, nodes: &Vec<u64>, write_quorum: usize) -> (r: LogOffset)
        ensures
            is_quorum_committed(self.spec_offsets(), nodes@, write_quorum, r.0),
    {
        let n: usize = nodes.len();
        if write_quorum == 0 || write_quorum > n {
            return LogOffset(0);
        }
        let ghost m = self.node_offsets@;
        let mut best: u64 = 0;
        let mut found: bool = false;
        let mut i: usize = 0;
        while i < n
            invariant
                i <= n,
                n == nodes@.len(),
                m == self.node_offsets@,
                1 <= write_quorum <= n,
                found ==> exists|j: int|
                    0 <= j < i && #[trigger] offset_or_zero(m, nodes@[j]) == best,
                found ==> count_reaching(m, nodes@, best, n as int) >= write_quorum,
                forall|j: int|
                    0 <= j < i && count_reaching(
                        m,
                        nodes@,
                        #[trigger] offset_or_zero(m, nodes@[j]),
                        n as int,
                    ) >= write_quorum ==> found && offset_or_zero(m, nodes@[j]) <= best,
            decreases n - i,
        {
            let o: u64 = self.offset_of(nodes[i]);
            let c: usize = self.count_at(nodes, o);
            if c >= write_quorum && (!found || o > best) {
                best = o;
                found = true;
            }
            i += 1;
        }
        proof {
            if !found {
                // The node that has come least far is reached by all.
                lemma_lowest_is_reached_by_all(m, nodes@);
            }
        }
        LogOffset(best)
    }
}

impl Default for SyncManager {
    fn default() -> (r: Self)
        ensures
            r.wf(),
            r.spec_offsets() == Map::<u64, LogOffset>::empty(),
    {
        Self::new()
    }
}

/// Counting how many nodes reach a value never counts more nodes than
/// there are, and counts all of them where every node reaches it.
pub proof fn lemma_count_reaching(offsets: Map<u64, LogOffset>, nodes: Seq<u64>, v: u64, upto: int)
    requires
        0 <= upto <= nodes.len(),
    ensures
        0 <= count_reaching(offsets, nodes, v, upto) <= upto,
        (forall|i: int| 0 <= i < upto ==> offset_or_zero(offsets, #[trigger] nodes[i]) >= v)
            ==> count_reaching(offsets, nodes, v, upto) == upto,
    decreases upto,
{
    if upto > 0 {
        lemma_count_reaching(offsets, nodes, v, upto - 1);
    }
}

/// Among nodes there is one that has come least far, and every node has
/// reached its offset.
pub proof fn lemma_lowest_is_reached_by_all(offsets: Map<u64, LogOffset>, nodes: Seq<u64>)
    requires
        nodes.len() > 0,
    ensures
        exists|i: int|
            0 <= i < nodes.len() && count_reaching(
                offsets,
                nodes,
                #[trigger] offset_or_zero(offsets, nodes[i]),
                nodes.len() as int,
            ) == nodes.len(),
{
    let i = lemma_lowest(offsets, nodes, nodes.len() as int);
    lemma_count_reaching(offsets, nodes, offset_or_zero(offsets, nodes[i]), nodes.len() as int);
}

/// A node that has come least far among the first `upto`.
pub proof fn lemma_lowest(offsets: Map<u64, LogOffset>, nodes: Seq<u64>, upto: int) -> (i: int)
    requires
        0 < upto <= nodes.len(),
    ensures
        0 <= i < upto,
        forall|j: int|
            0 <= j < upto ==> offset_or_zero(offsets, #[trigger] nodes[j]) >= offset_or_zero(
                offsets,
                nodes[i],
            ),
    decreases upto,
{
    if upto == 1 {
        0
    } else {
        let k = lemma_lowest(offsets, nodes, upto - 1);
        if offset_or_zero(offsets, nodes[upto - 1]) < offset_or_zero(offsets, nodes[k]) {
            upto - 1
        } else {
            k
        }
    }
}

/// Waiting for a quorum ends exactly when the node that completes the
/// quorum crosses the target. When a node of the list that was below the
/// target reports an offset at or above it, the number of nodes that have
/// reached the target grows by one; any other report leaves it as it was.
/// So with one node short of the quorum, the quorum is reached by the
/// report that takes a further node across, and by no other.
pub proof fn lemma_quorum_reached_on_crossing(
    offsets: Map<u64, LogOffset>,
    nodes: Seq<u64>,
    target: u64,
    node: u64,
    offset: LogOffset,
    upto: int,
)
    requires
        nodes.no_duplicates(),
        0 <= upto <= nodes.len(),
    ensures
        ({
            let before = ready_count(offsets, nodes, target, upto);
            let after = ready_count(offsets.insert(node, offset), nodes, target, upto);
            let was_ready = offsets.contains_key(node) && offsets[node].0 >= target;
            let listed = nodes.subrange(0, upto).contains(node);
            after == before + if listed && !was_ready && offset.0 >= target {
                1int
            } else if listed && was_ready && offset.0 < target {
                -1int
            } else {
                0int
            }
        }),
    decreases upto,
{
    if upto > 0 {
        lemma_quorum_reached_on_crossing(offsets, nodes, target, node, offset, upto - 1);
        let longer = nodes.subrange(0, upto);
        if nodes[upto - 1] == node {
            assert(longer[upto - 1] == node);
        }
    }
}

} // verus!
