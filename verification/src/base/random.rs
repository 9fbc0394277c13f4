//! Random choices.
//!
//! Copyset selection, election timeouts and random partitioning draw on the
//! thread-local generator of the `rand` crate. What the generator yields is
//! chance; the contracts here state only what holds of every outcome, as
//! `rand` documents it, and every function of the library that draws is
//! proved for whatever comes out.

use vstd::prelude::*;
use rand::rngs::ThreadRng;
use rand::seq::SliceRandom;
use rand::Rng;

verus! {

#[verifier::external_type_specification]
#[verifier::external_body]
pub struct ExThreadRng(rand::rngs::ThreadRng);

/// `rand::thread_rng`: the generator of the current thread.
#[verifier::external_body]
pub(crate) fn thread_generator() -> ThreadRng {
    rand::thread_rng()
}

/// `Rng::gen_range` on `low..=high`: some number of that range. The range
/// must not be empty.
#[verifier::external_body]
pub(crate) fn random_u64_between(rng: &mut ThreadRng, low: u64, high: u64) -> (r: u64)
    requires
        low <= high,
    ensures
        low <= r <= high,
{
    rng.gen_range(low..=high)
}

/// `Rng::gen_range` on `0..bound`: some number below `bound`. The range
/// must not be empty.
#[verifier::external_body]
pub(crate) fn random_u32_below(rng: &mut ThreadRng, bound: u32) -> (r: u32)
    requires
        bound > 0,
    ensures
        r < bound,
{
    rng.gen_range(0..bound)
}

/// `SliceRandom::shuffle`: the same elements in some order.
#[verifier::external_body]
pub(crate) fn shuffle_nodes(rng: &mut ThreadRng, nodes: &mut Vec<u64>)
    ensures
        final(nodes)@.to_multiset() == old(nodes)@.to_multiset(),
{
    nodes.shuffle(rng)
}

/// `SliceRandom::choose`: some element of the list, or none if the list is
/// empty.
#[verifier::external_body]
pub(crate) fn choose_node(rng: &mut ThreadRng, nodes: &Vec<u64>) -> (r: Option<u64>)
    ensures
        match r {
            Some(n) => nodes@.contains(n),
            None => nodes@.len() == 0,
        },
{
    nodes.choose(rng).copied()
}

} // verus!
