//! Copysets: the nodes that hold the copies of a partition.
//!
//! A copyset is drawn at random from the nodes of the cluster, so that the
//! copies of different partitions spread over different groups of nodes.
//! Chance decides which nodes are drawn; what is proved here holds of every
//! draw.

use vstd::prelude::*;
use vstd::seq_lib::{lemma_multiset_commutative, to_multiset_contains, to_multiset_len};
use vstd::string::StringExecFns;
use rand::rngs::ThreadRng;
use std::collections::HashMap;
use crate::base::partition::contains_node;
use crate::base::random::{choose_node, shuffle_nodes, thread_generator};

verus! {

/// The nodes that hold the copies of one partition, and the one among them
/// that leads.
#[derive(Debug, Clone)]
pub struct CopySet {
    pub nodes: Vec<u64>,
    pub leader: u64,
}

impl CopySet {
    pub fn new(nodes: Vec<u64>, leader: u64) -> (r: Self)
        ensures
            r.nodes == nodes,
            r.leader == leader,
    {
        Self { nodes, leader }
    }

    /// Whether `node_id` holds a copy.
    pub fn contains(&self, node_id: u64) -> (r: bool)
        ensures
            r == self.nodes@.contains(node_id),
    {
        contains_node(&self.nodes, node_id)
    }

    /// The number of copies.
    pub fn size(&self) -> (r: usize)
        ensures
            r == self.nodes@.len(),
    {
        self.nodes.len()
    }

    /// A second copyset with the same nodes and leader.
    pub fn duplicate(&self) -> (r: Self)
        ensures
            r.nodes@ == self.nodes@,
            r.leader == self.leader,
    {
        Self { nodes: self.nodes.clone(), leader: self.leader }
    }
}

/// How the copysets drawn so far were used.
#[derive(Debug, Clone, Copy, PartialEq, Eq, Structural)]
pub struct CopySetStats {
    /// The number of different copysets.
    pub total_copysets: usize,
    /// The number of draws.
    pub total_usage: usize,
    /// The draws of the copyset drawn most often.
    pub max_usage: usize,
    /// The draws of the copyset drawn least often.
    pub min_usage: usize,
}

/// One line of the usage table: a copyset and how often it was drawn.
#[derive(Debug, Clone)]
pub struct CopySetUsage {
    pub nodes: Vec<u64>,
    pub count: usize,
}

/// The nodes are in ascending order.
pub open spec fn ascending(s: Seq<u64>) -> bool {
    forall|i: int, j: int| 0 <= i <= j < s.len() ==> s[i] <= s[j]
}

/// The place of the first line for `nodes` at or after `from`, or the
/// length of the table.
pub open spec fn line_of(table: Seq<CopySetUsage>, nodes: Seq<u64>, from: int) -> int
    decreases table.len() - from,
{
    if from < 0 || from >= table.len() {
        table.len() as int
    } else if table[from].nodes@ == nodes {
        from
    } else {
        line_of(table, nodes, from + 1)
    }
}

/// One more than `n`, unless `n` is the largest number there is.
pub open spec fn one_more(n: usize) -> usize {
    if n == usize::MAX {
        n
    } else {
        (n + 1) as usize
    }
}

/// The sum of `a` and `b`, capped at the largest number there is.
pub open spec fn capped_sum(a: int, b: int) -> int {
    if a + b > usize::MAX {
        usize::MAX as int
    } else {
        a + b
    }
}

/// The draws of the first `n` lines, added up and capped.
pub open spec fn total_count(table: Seq<CopySetUsage>, n: int) -> int
    decreases n,
{
    if n <= 0 || n > table.len() {
        0
    } else {
        capped_sum(total_count(table, n - 1), table[n - 1].count as int)
    }
}

/// Whether the datacenter map places `node` in `dc`.
pub open spec fn in_dc(map: Map<u64, String>, node: u64, dc: Seq<char>) -> bool {
    map.contains_key(node) && map[node]@ == dc
}

/// Whether one of `nodes` lies in the datacenter `dc`.
pub open spec fn has_node_in(nodes: Seq<u64>, map: Map<u64, String>, dc: Seq<char>) -> bool {
    exists|x: u64| nodes.contains(x) && in_dc(map, x, dc)
}

/// Whether `x` is not the node that was chosen, if one was.
pub open spec fn is_other(chosen: Option<u64>, x: u64) -> bool {
    chosen != Some(x)
}

/// How often `v` occurs among the first `upto` of `s`.
pub open spec fn occurrences(s: Seq<u64>, v: u64, upto: int) -> int
    decreases upto,
{
    if upto <= 0 || upto > s.len() {
        0
    } else {
        occurrences(s, v, upto - 1) + if s[upto - 1] == v {
            1int
        } else {
            0int
        }
    }
}

/// In a list without repetitions a value occurs once if at all.
pub proof fn lemma_occurrences(s: Seq<u64>, v: u64, upto: int)
    requires
        s.no_duplicates(),
        0 <= upto <= s.len(),
    ensures
        occurrences(s, v, upto) == if s.subrange(0, upto).contains(v) {
            1int
        } else {
            0int
        },
    decreases upto,
{
    if upto > 0 {
        lemma_occurrences(s, v, upto - 1);
        let shorter = s.subrange(0, upto - 1);
        let longer = s.subrange(0, upto);
        assert(longer =~= shorter.push(s[upto - 1]));
        if s[upto - 1] == v {
            assert(longer[upto - 1] == v);
            if shorter.contains(v) {
                let i = choose|i: int| 0 <= i < shorter.len() && shorter[i] == v;
                assert(s[i] == s[upto - 1]);
            }
        } else {
            if longer.contains(v) {
                let i = choose|i: int| 0 <= i < longer.len() && longer[i] == v;
                assert(shorter[i] == v);
            }
            if shorter.contains(v) {
                let i = choose|i: int| 0 <= i < shorter.len() && shorter[i] == v;
                assert(longer[i] == v);
            }
        }
    }
}

/// `[T]::sort_unstable` on node ids: the same nodes in ascending order.
#[verifier::external_body]
fn sort_nodes(nodes: &mut Vec<u64>)
    ensures
        ascending(final(nodes)@),
        final(nodes)@.to_multiset() == old(nodes)@.to_multiset(),
{
    nodes.sort_unstable()
}

/// Lists that hold the same nodes equally often hold nodes of the same
/// lists, are equally long, and are free of repetitions together.
pub proof fn lemma_same_nodes(a: Seq<u64>, b: Seq<u64>)
    requires
        a.to_multiset() == b.to_multiset(),
    ensures
        a.len() == b.len(),
        forall|x: u64| a.contains(x) <==> b.contains(x),
        a.no_duplicates() ==> b.no_duplicates(),
{
    to_multiset_len(a);
    to_multiset_len(b);
    assert forall|x: u64| a.contains(x) <==> b.contains(x) by {
        to_multiset_contains(a, x);
        to_multiset_contains(b, x);
    }
    if a.no_duplicates() {
        a.lemma_multiset_has_no_duplicates();
        b.lemma_multiset_has_no_duplicates_conv();
    }
}

/// Draws copysets and keeps count of how often each was drawn.
#[derive(Debug, Clone)]
pub struct CopySetSelector {
    all_nodes: Vec<u64>,
    replication_factor: usize,
    copyset_usage: Vec<CopySetUsage>,
}

impl CopySetSelector {
    /// The nodes of the cluster.
    pub closed spec fn spec_nodes(&self) -> Seq<u64> {
        self.all_nodes@
    }

    /// The number of nodes in a copyset.
    pub closed spec fn spec_factor(&self) -> usize {
        self.replication_factor
    }

    /// The usage table, in the order in which the copysets were first
    /// drawn.
    pub closed spec fn spec_usage(&self) -> Seq<CopySetUsage> {
        self.copyset_usage@
    }

    /// Whether `after` is the usage table `table` after one more draw of
    /// `nodes`: the count of the line for `nodes` is raised, or a line with
    /// a count of one is added.
    pub open spec fn bumped(
        table: Seq<CopySetUsage>,
        nodes: Seq<u64>,
        after: Seq<CopySetUsage>,
    ) -> bool {
        let at = line_of(table, nodes, 0);
        if at < table.len() {
            &&& after.len() == table.len()
            &&& after[at].nodes@ == nodes
            &&& after[at].count == one_more(table[at].count)
            &&& forall|i: int| 0 <= i < table.len() && i != at ==> after[i] == table[i]
        } else {
            &&& after.len() == table.len() + 1
            &&& after[at].nodes@ == nodes
            &&& after[at].count == 1
            &&& forall|i: int| 0 <= i < table.len() ==> after[i] == table[i]
        }
    }

    /// A selector that has drawn nothing yet.
    pub fn new(all_nodes: Vec<u64>, replication_factor: usize) -> (r: Self)
        ensures
            r.spec_nodes() == all_nodes@,
            r.spec_factor() == replication_factor,
            r.spec_usage().len() == 0,
    {
        Self { all_nodes, replication_factor, copyset_usage: Vec::new() }
    }

    /// Whether two lists hold the same nodes in the same order.
    fn same_list(a: &Vec<u64>, b: &Vec<u64>) -> (r: bool)
        ensures
            r == (a@ == b@),
    {
        if a.len() != b.len() {
            return false;
        }
        let n: usize = a.len();
        let mut i: usize = 0;
        while i < n
            invariant
                i <= n,
                n == a@.len(),
                n == b@.len(),
                forall|j: int| 0 <= j < i ==> a@[j] == b@[j],
            decreases n - i,
        {
            if a[i] != b[i] {
                return false;
            }
            i += 1;
        }
        assert(a@ =~= b@);
        true
    }

    /// Counts one more draw of `nodes`.
    fn record_usage(&mut self, nodes: &Vec<u64>)
        ensures
            final(self).all_nodes == old(self).all_nodes,
            final(self).replication_factor == old(self).replication_factor,
            Self::bumped(old(self).copyset_usage@, nodes@, final(self).copyset_usage@),
    {
        let ghost table = self.copyset_usage@;
        let n: usize = self.copyset_usage.len();
        let mut i: usize = 0;
        while i < n
            invariant
                i <= n,
                n == table.len(),
                table == self.copyset_usage@,
                table == old(self).copyset_usage@,
                self.all_nodes == old(self).all_nodes,
                self.replication_factor == old(self).replication_factor,
                line_of(table, nodes@, i as int) == line_of(table, nodes@, 0),
            decreases n - i,
        {
            if Self::same_list(&self.copyset_usage[i].nodes, nodes) {
                let count: usize = self.copyset_usage[i].count;
                let line = CopySetUsage {
                    nodes: nodes.clone(),
                    count: if count == usize::MAX {
                        count
                    } else {
                        count + 1
                    },
                };
                self.copyset_usage.set(i, line);
                assert(line_of(table, nodes@, 0) == i);
                return ;
            }
            i += 1;
        }
        assert(line_of(table, nodes@, 0) == n);
        self.copyset_usage.push(CopySetUsage { nodes: nodes.clone(), count: 1 });
    }

    /// Draws a copyset: as many nodes of the cluster as the replication
    /// factor says, in ascending order, and a leader among them. A cluster
    /// with fewer nodes than that has no copyset, and neither has a
    /// replication factor of zero. Every draw is counted.
    pub fn select_copyset(&mut self) -> (r: Option<CopySet>)
        ensures
            final(self).spec_nodes() == old(self).spec_nodes(),
            final(self).spec_factor() == old(self).spec_factor(),
            r is Some <==> old(self).spec_nodes().len() >= old(self).spec_factor() && old(
                self,
            ).spec_factor() >= 1,
            old(self).spec_nodes().len() < old(self).spec_factor() ==> final(self).spec_usage()
                == old(self).spec_usage(),
            match r {
                Some(cs) => {
                    &&& cs.nodes@.len() == old(self).spec_factor()
                    &&& ascending(cs.nodes@)
                    &&& cs.nodes@.to_multiset().subset_of(old(self).spec_nodes().to_multiset())
                    &&& forall|x: u64| cs.nodes@.contains(x) ==> old(self).spec_nodes().contains(x)
                    &&& old(self).spec_nodes().no_duplicates() ==> cs.nodes@.no_duplicates()
                    &&& cs.nodes@.contains(cs.leader)
                    &&& Self::bumped(old(self).spec_usage(), cs.nodes@, final(self).spec_usage())
                },
                None => true,
            },
    {
        let factor: usize = self.replication_factor;
        if self.all_nodes.len() < factor {
            return None;
        }
        let ghost all = self.all_nodes@;
        let mut rng: ThreadRng = thread_generator();
        let mut nodes: Vec<u64> = self.all_nodes.clone();
        assert(nodes@ =~= all);
        shuffle_nodes(&mut rng, &mut nodes);
        let ghost shuffled = nodes@;
        nodes.truncate(factor);
        let ghost cut = nodes@;
        sort_nodes(&mut nodes);
        proof {
            lemma_same_nodes(all, shuffled);
            lemma_same_nodes(cut, nodes@);
            let rest = shuffled.subrange(factor as int, shuffled.len() as int);
            assert(shuffled =~= cut + rest);
            lemma_multiset_commutative(cut, rest);
            assert(cut.to_multiset().subset_of(shuffled.to_multiset())) by {
                assert forall|x: u64| cut.to_multiset().count(x) <= shuffled.to_multiset().count(
                    x,
                ) by {}
            }
            assert forall|x: u64| nodes@.contains(x) implies all.contains(x) by {
                assert(cut.contains(x));
                let i = choose|i: int| 0 <= i < cut.len() && cut[i] == x;
                assert(shuffled[i] == x);
                assert(shuffled.contains(x));
            }
            if all.no_duplicates() {
                assert(shuffled.no_duplicates());
                assert forall|i: int, j: int|
                    0 <= i < cut.len() && 0 <= j < cut.len() && i != j implies cut[i] != cut[j] by {
                    assert(shuffled[i] != shuffled[j]);
                }
            }
        }
        self.record_usage(&nodes);
        let leader: u64 = match choose_node(&mut rng, &nodes) {
            Some(l) => l,
            None => {
                return None;
            },
        };
        Some(CopySet { nodes, leader })
    }

    /// Whether the datacenter map places `node` in `dc`.
    fn in_datacenter(map: &HashMap<u64, String>, node: u64, dc: &String) -> (r: bool)
        ensures
            r == in_dc(map@, node, dc@),
    {
        match map.get(&node) {
            Some(d) => *d == *dc,
            None => false,
        }
    }

    /// The nodes of the cluster that lie in `dc`.
    fn nodes_in(&self, map: &HashMap<u64, String>, dc: &String) -> (r: Vec<u64>)
        ensures
            forall|x: u64|
                #![trigger r@.contains(x)]
                #![trigger self.all_nodes@.contains(x)]
                r@.contains(x) <==> self.all_nodes@.contains(x) && in_dc(map@, x, dc@),
    {
        let mut out: Vec<u64> = Vec::new();
        let n: usize = self.all_nodes.len();
        let mut i: usize = 0;
        while i < n
            invariant
                i <= n,
                n == self.all_nodes@.len(),
                forall|x: u64|
                    #![trigger out@.contains(x)]
                    #![trigger self.all_nodes@.subrange(0, i as int).contains(x)]
                    out@.contains(x) <==> self.all_nodes@.subrange(0, i as int).contains(x)
                        && in_dc(map@, x, dc@),
            decreases n - i,
        {
            let node: u64 = self.all_nodes[i];
            let ghost before = out@;
            let ghost shorter = self.all_nodes@.subrange(0, i as int);
            let ghost longer = self.all_nodes@.subrange(0, i + 1);
            assert(longer =~= shorter.push(node));
            if Self::in_datacenter(map, node, dc) {
                out.push(node);
            }
            proof {
                assert forall|x: u64|
                    out@.contains(x) <==> longer.contains(x) && in_dc(map@, x, dc@) by {
                    if out@.contains(x) {
                        let k = choose|k: int| 0 <= k < out@.len() && out@[k] == x;
                        if k < before.len() {
                            assert(before[k] == x);
                            assert(before.contains(x));
                            let m = choose|m: int| 0 <= m < shorter.len() && shorter[m] == x;
                            assert(longer[m] == x);
                        } else {
                            assert(longer[i as int] == x);
                        }
                    }
                    if longer.contains(x) && in_dc(map@, x, dc@) {
                        let m = choose|m: int| 0 <= m < longer.len() && longer[m] == x;
                        if m < i {
                            assert(shorter[m] == x);
                            assert(before.contains(x));
                            let k = choose|k: int| 0 <= k < before.len() && before[k] == x;
                            assert(out@[k] == x);
                        } else {
                            assert(out@[out@.len() - 1] == x);
                        }
                    }
                }
            }
            i += 1;
        }
        assert(self.all_nodes@.subrange(0, n as int) =~= self.all_nodes@);
        out
    }

    /// The nodes of the cluster other than `chosen`, in cluster order.
    fn nodes_other_than(&self, chosen: Option<u64>) -> (r: Vec<u64>)
        ensures
            forall|x: u64|
                #![trigger r@.contains(x)]
                #![trigger self.all_nodes@.contains(x)]
                r@.contains(x) <==> self.all_nodes@.contains(x) && is_other(chosen, x),
            self.all_nodes@.no_duplicates() ==> r@.no_duplicates(),
            r@.len() == self.all_nodes@.len() - match chosen {
                Some(c) => occurrences(self.all_nodes@, c, self.all_nodes@.len() as int),
                None => 0,
            },
    {
        let mut out: Vec<u64> = Vec::new();
        let n: usize = self.all_nodes.len();
        let mut i: usize = 0;
        while i < n
            invariant
                i <= n,
                n == self.all_nodes@.len(),
                forall|x: u64|
                    #![trigger out@.contains(x)]
                    #![trigger self.all_nodes@.subrange(0, i as int).contains(x)]
                    out@.contains(x) <==> self.all_nodes@.subrange(0, i as int).contains(x)
                        && is_other(chosen, x),
                self.all_nodes@.no_duplicates() ==> out@.no_duplicates(),
                out@.len() == i - match chosen {
                    Some(c) => occurrences(self.all_nodes@, c, i as int),
                    None => 0,
                },
            decreases n - i,
        {
            let node: u64 = self.all_nodes[i];
            let ghost before = out@;
            let ghost shorter = self.all_nodes@.subrange(0, i as int);
            let ghost longer = self.all_nodes@.subrange(0, i + 1);
            assert(longer =~= shorter.push(node));
            let keep: bool = match chosen {
                Some(c) => c != node,
                None => true,
            };
            assert(keep == (chosen != Some(node)));
            if keep {
                out.push(node);
            }
            proof {
                assert forall|x: u64| out@.contains(x) implies longer.contains(x) && is_other(chosen, x) by {
                    let k = choose|k: int| 0 <= k < out@.len() && out@[k] == x;
                    if k < before.len() {
                        assert(before[k] == x);
                        assert(before.contains(x));
                        assert(shorter.contains(x) && is_other(chosen, x));
                        let m = choose|m: int| 0 <= m < shorter.len() && shorter[m] == x;
                        assert(longer[m] == x);
                    } else {
                        assert(x == node);
                        assert(longer[i as int] == x);
                    }
                }
                assert forall|x: u64| longer.contains(x) && is_other(chosen, x) implies out@.contains(
                    x,
                ) by {
                    let m = choose|m: int| 0 <= m < longer.len() && longer[m] == x;
                    if m < i {
                        assert(shorter[m] == x);
                        assert(shorter.contains(x));
                        assert(before.contains(x));
                        let k = choose|k: int| 0 <= k < before.len() && before[k] == x;
                        assert(out@[k] == x);
                    } else {
                        assert(x == node);
                        assert(keep);
                        assert(out@[out@.len() - 1] == x);
                    }
                }
                if self.all_nodes@.no_duplicates() && keep {
                    assert forall|a: int, b: int|
                        0 <= a < out@.len() && 0 <= b < out@.len() && a != b implies out@[a]
                        != out@[b] by {
                        if a < before.len() && b < before.len() {
                            assert(before[a] != before[b]);
                        } else {
                            let old_one = if a < before.len() {
                                a
                            } else {
                                b
                            };
                            assert(before.contains(before[old_one]));
                            let m = choose|m: int|
                                0 <= m < shorter.len() && shorter[m] == before[old_one];
                            assert(self.all_nodes@[m] != self.all_nodes@[i as int]);
                        }
                    }
                }
            }
            i += 1;
        }
        assert(self.all_nodes@.subrange(0, n as int) =~= self.all_nodes@);
        out
    }

    /// The nodes of a copyset that holds a node of the datacenter `dc` if
    /// the cluster has one in it.
    fn draw_dc_aware(&self, datacenter_map: &HashMap<u64, String>, dc: &String, rng: &mut ThreadRng) -> (r:
        Option<Vec<u64>>)
        ensures
            self.all_nodes@.no_duplicates() && self.all_nodes@.len() >= self.replication_factor
                ==> r is Some,
            self.all_nodes@.no_duplicates() && self.all_nodes@.len() < self.replication_factor
                ==> r is None,
            match r {
                Some(v) => {
                    &&& self.replication_factor >= 1 ==> v@.len() == self.replication_factor
                    &&& self.replication_factor == 0 ==> v@.len() <= 1
                    &&& ascending(v@)
                    &&& forall|x: u64| v@.contains(x) ==> self.all_nodes@.contains(x)
                    &&& self.all_nodes@.no_duplicates() ==> v@.no_duplicates()
                    &&& has_node_in(self.all_nodes@, datacenter_map@, dc@) ==> has_node_in(
                        v@,
                        datacenter_map@,
                        dc@,
                    )
                },
                None => true,
            },
    {
        let factor: usize = self.replication_factor;
        let ghost all = self.all_nodes@;
        let preferred: Vec<u64> = self.nodes_in(datacenter_map, dc);
        let chosen: Option<u64> = choose_node(rng, &preferred);
        proof {
            match chosen {
                Some(c) => {
                    assert(preferred@.contains(c));
                },
                None => {
                    assert forall|x: u64| all.contains(x) implies !in_dc(datacenter_map@, x, dc@) by {
                        if in_dc(datacenter_map@, x, dc@) {
                            assert(preferred@.contains(x));
                            let k = choose|k: int| 0 <= k < preferred@.len() && preferred@[k] == x;
                        }
                    }
                },
            }
        }
        let mut remaining: Vec<u64> = self.nodes_other_than(chosen);
        let ghost candidates = remaining@;
        shuffle_nodes(rng, &mut remaining);
        proof {
            lemma_same_nodes(candidates, remaining@);
            if all.no_duplicates() {
                lemma_occurrences(all, chosen.unwrap_or(0), all.len() as int);
                assert(all.subrange(0, all.len() as int) =~= all);
            }
        }
        let mut selected: Vec<u64> = Vec::new();
        match chosen {
            Some(c) => {
                selected.push(c);
            },
            None => {},
        }
        let ghost first = selected@;
        let mut taken: usize = 0;
        while selected.len() < factor && taken < remaining.len()
            invariant
                taken <= remaining@.len(),
                selected@ == first + remaining@.subrange(0, taken as int),
                first.len() <= 1,
                factor >= 1 ==> selected@.len() <= factor,
                factor == 0 ==> selected@ == first,
            decreases remaining@.len() - taken,
        {
            selected.push(remaining[taken]);
            taken += 1;
            assert(selected@ =~= first + remaining@.subrange(0, taken as int));
        }
        if selected.len() < factor {
            return None;
        }
        let ghost picked = selected@;
        proof {
            let part = remaining@.subrange(0, taken as int);
            assert forall|x: u64| picked.contains(x) implies all.contains(x) by {
                let k = choose|k: int| 0 <= k < picked.len() && picked[k] == x;
                if k < first.len() {
                    assert(chosen == Some(x));
                } else {
                    assert(part[k - first.len()] == x);
                    assert(remaining@[k - first.len()] == x);
                    assert(remaining@.contains(x));
                    assert(candidates.contains(x));
                }
            }
            if all.no_duplicates() {
                assert forall|a: int, b: int|
                    0 <= a < picked.len() && 0 <= b < picked.len() && a != b implies picked[a]
                    != picked[b] by {
                    if a >= first.len() && b >= first.len() {
                        assert(remaining@[a - first.len()] != remaining@[b - first.len()]);
                    } else {
                        let other = if a < first.len() {
                            b
                        } else {
                            a
                        };
                        let x = picked[other];
                        assert(remaining@[other - first.len()] == x);
                        assert(remaining@.contains(x));
                        assert(candidates.contains(x));
                    }
                }
            }
        }
        sort_nodes(&mut selected);
        proof {
            lemma_same_nodes(picked, selected@);
            match chosen {
                Some(c) => {
                    assert(picked[0] == c);
                    assert(picked.contains(c));
                    assert(selected@.contains(c) && in_dc(datacenter_map@, c, dc@));
                },
                None => {},
            }
            assert(factor >= 1 ==> selected@.len() == factor);
            assert(factor == 0 ==> selected@.len() <= 1);
            assert(forall|x: u64| selected@.contains(x) ==> all.contains(x));
            assert(all.no_duplicates() ==> selected@.no_duplicates());
            assert(has_node_in(all, datacenter_map@, dc@) ==> has_node_in(
                selected@,
                datacenter_map@,
                dc@,
            ));
        }
        Some(selected)
    }

    /// Draws a copyset that holds a node of the datacenter `preferred_dc`
    /// if the cluster has one in it: one such node is drawn first, and the
    /// rest of the copyset is drawn from all other nodes. The copyset has
    /// as many nodes as the replication factor says, in ascending order,
    /// and a leader among them; a cluster that cannot fill it has none.
    pub fn select_copyset_dc_aware(
        &mut self,
        datacenter_map: &HashMap<u64, String>,
        preferred_dc: &str,
    ) -> (r: Option<CopySet>)
        ensures
            final(self).spec_nodes() == old(self).spec_nodes(),
            final(self).spec_factor() == old(self).spec_factor(),
            final(self).spec_usage() == old(self).spec_usage(),
            old(self).spec_nodes().no_duplicates() && old(self).spec_nodes().len() >= old(
                self,
            ).spec_factor() && old(self).spec_factor() >= 1 ==> r is Some,
            old(self).spec_nodes().no_duplicates() && old(self).spec_nodes().len() < old(
                self,
            ).spec_factor() ==> r is None,
            match r {
                Some(cs) => {
                    &&& old(self).spec_factor() >= 1 ==> cs.nodes@.len() == old(self).spec_factor()
                    &&& cs.nodes@.len() >= 1
                    &&& ascending(cs.nodes@)
                    &&& forall|x: u64| cs.nodes@.contains(x) ==> old(self).spec_nodes().contains(x)
                    &&& old(self).spec_nodes().no_duplicates() ==> cs.nodes@.no_duplicates()
                    &&& has_node_in(old(self).spec_nodes(), datacenter_map@, preferred_dc@)
                        ==> has_node_in(cs.nodes@, datacenter_map@, preferred_dc@)
                    &&& cs.nodes@.contains(cs.leader)
                },
                None => true,
            },
    {
        let dc: String = String::from_str(preferred_dc);
        let mut rng: ThreadRng = thread_generator();
        let nodes: Vec<u64> = match self.draw_dc_aware(datacenter_map, &dc, &mut rng) {
            Some(v) => v,
            None => {
                return None;
            },
        };
        let leader: u64 = match choose_node(&mut rng, &nodes) {
            Some(l) => l,
            None => {
                return None;
            },
        };
        Some(CopySet { nodes, leader })
    }

    /// The statistics of the usage table.
    pub fn get_stats(&self) -> (r: CopySetStats)
        ensures
            r.total_copysets == self.spec_usage().len(),
            r.total_usage == total_count(self.spec_usage(), self.spec_usage().len() as int),
            self.spec_usage().len() == 0 ==> r.max_usage == 0 && r.min_usage == 0,
            self.spec_usage().len() > 0 ==> {
                &&& exists|i: int|
                    0 <= i < self.spec_usage().len() && self.spec_usage()[i].count == r.max_usage
                &&& exists|i: int|
                    0 <= i < self.spec_usage().len() && self.spec_usage()[i].count == r.min_usage
                &&& forall|i: int|
                    0 <= i < self.spec_usage().len() ==> r.min_usage <= (
                    #[trigger] self.spec_usage()[i]).count <= r.max_usage
            },
    {
        let n: usize = self.copyset_usage.len();
        if n == 0 {
            return CopySetStats { total_copysets: 0, total_usage: 0, max_usage: 0, min_usage: 0 };
        }
        let mut total: usize = 0;
        let mut max: usize = self.copyset_usage[0].count;
        let mut min: usize = self.copyset_usage[0].count;
        let ghost mut at_max: int = 0;
        let ghost mut at_min: int = 0;
        let mut i: usize = 0;
        while i < n
            invariant
                i <= n,
                n == self.copyset_usage@.len(),
                n > 0,
                total == total_count(self.copyset_usage@, i as int),
                0 <= at_max < n,
                0 <= at_min < n,
                self.copyset_usage@[at_max].count == max,
                self.copyset_usage@[at_min].count == min,
                forall|j: int| 0 <= j < i ==> min <= (#[trigger] self.copyset_usage@[j]).count <= max,
            decreases n - i,
        {
            let c: usize = self.copyset_usage[i].count;
            total = total.saturating_add(c);
            if c > max {
                max = c;
                proof {
                    at_max = i as int;
                }
            }
            if c < min {
                min = c;
                proof {
                    at_min = i as int;
                }
            }
            i += 1;
        }
        CopySetStats { total_copysets: n, total_usage: total, max_usage: max, min_usage: min }
    }
}

} // verus!
