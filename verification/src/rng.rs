use vstd::prelude::*;

verus! {

#[verifier::external_type_specification]
#[verifier::external_body]
pub struct ExXoshiro256StarStar(rand_xoshiro::Xoshiro256StarStar);

/// Relies on rand's `SeedableRng::seed_from_u64`, which builds the generator
/// deterministically from the seed.
#[verifier::external_body]
pub fn rng_from_seed(seed: u64) -> rand_xoshiro::Xoshiro256StarStar {
    rand::SeedableRng::seed_from_u64(seed)
}

/// Relies on the derived `Clone` of `Xoshiro256StarStar`: the copy starts from
/// the same generator state. Components fork their generators this way.
#[verifier::external_body]
pub fn rng_fork(rng: &rand_xoshiro::Xoshiro256StarStar) -> rand_xoshiro::Xoshiro256StarStar {
    rng.clone()
}

/// Relies on `Rng::gen_range`, which returns a uniform value in the given
/// range and panics only when the range is empty; the precondition rules the
/// empty range out.
#[verifier::external_body]
pub fn rand_below(rng: &mut rand_xoshiro::Xoshiro256StarStar, n: usize) -> (r: usize)
    requires
        n >= 1,
    ensures
        r < n,
{
    rand::Rng::gen_range(rng, 0..n)
}

/// Relies on `Rng::gen` with the `Standard` distribution to draw a fresh
/// 64-bit identifier.
#[verifier::external_body]
pub fn rand_u64(rng: &mut rand_xoshiro::Xoshiro256StarStar) -> u64 {
    rand::Rng::gen(rng)
}

/// Relies on `SliceRandom::shuffle`: the slice is permuted in place, so its
/// length and its multiset of elements are unchanged.
#[verifier::external_body]
pub fn shuffle<T>(v: &mut Vec<T>, rng: &mut rand_xoshiro::Xoshiro256StarStar)
    ensures
        final(v)@.len() == old(v)@.len(),
        final(v)@.to_multiset() == old(v)@.to_multiset(),
{
    rand::seq::SliceRandom::shuffle(v.as_mut_slice(), rng)
}

} // verus!
