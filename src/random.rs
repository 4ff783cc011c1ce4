use rand::rngs::StdRng;
use rand::seq::{IndexedRandom, SliceRandom};
use rand::SeedableRng;
use vstd::prelude::*;

verus! {

#[verifier::external_type_specification]
#[verifier::external_body]
pub struct ExStdRng(StdRng);

/// Relies on rand's `SeedableRng::seed_from_u64`: a generator fixed by the seed.
#[verifier::external_body]
fn std_rng_from_seed(seed: u64) -> StdRng {
    StdRng::seed_from_u64(seed)
}

/// Relies on rand's `SeedableRng::from_rng` over the thread generator
/// `rand::rng()`: a generator seeded from the operating system.
#[verifier::external_body]
fn std_rng_from_thread() -> StdRng {
    StdRng::from_rng(&mut rand::rng())
}

/// Relies on rand's `IndexedRandom::choose`: `None` on an empty slice, else
/// a reference to one of its elements, drawn by one uniform index.
#[verifier::external_body]
fn choose_from(rng: &mut StdRng, items: &Vec<usize>) -> (r: Option<usize>)
    ensures
        r is None <==> items@.len() == 0,
        r matches Some(x) ==> items@.contains(x),
{
    items.choose(rng).copied()
}

/// Relies on rand's `SliceRandom::shuffle`: an in-place Fisher-Yates shuffle
/// made of swaps, so the result is a permutation of the input.
#[verifier::external_body]
fn shuffle_in_place<T>(rng: &mut StdRng, items: &mut Vec<T>)
    ensures
        final(items)@.to_multiset() == old(items)@.to_multiset(),
{
    items.shuffle(rng)
}

/// A uniform random engine; seed it for reproducible runs.
pub struct RandomSource {
    rng: StdRng,
}

impl RandomSource {
    /// A source seeded from the operating system.
    pub fn from_entropy() -> (r: RandomSource) {
        RandomSource { rng: std_rng_from_thread() }
    }

    /// A source whose draws are fixed by `seed`.
    pub fn from_seed(seed: u64) -> (r: RandomSource) {
        RandomSource { rng: std_rng_from_seed(seed) }
    }

    /// One uniform draw from `[0, n)`; `None` when `n` is zero.
    pub fn index_below(&mut self, n: usize) -> (r: Option<usize>)
        ensures
            r is None <==> n == 0,
            r matches Some(i) ==> i < n,
    {
        let mut indices: Vec<usize> = Vec::new();
        let mut i: usize = 0;
        while i < n
            invariant
                i <= n,
                indices@.len() == i,
                forall|j: int| 0 <= j < i ==> indices@[j] == j,
            decreases n - i,
        {
            indices.push(i);
            i = i + 1;
        }
        let r = choose_from(&mut self.rng, &indices);
        proof {
            if let Some(x) = r {
                let j = choose|j: int| 0 <= j < indices@.len() && indices@[j] == x;
            }
        }
        r
    }

    /// Puts `items` into a uniformly random order.
    pub fn shuffle<T>(&mut self, items: &mut Vec<T>)
        ensures
            final(items)@.to_multiset() == old(items)@.to_multiset(),
            final(items)@.len() == old(items)@.len(),
    {
        shuffle_in_place(&mut self.rng, items);
        proof {
            old(items)@.to_multiset_ensures();
            items@.to_multiset_ensures();
        }
    }
}

} // verus!
