//! The random generator that the example traces draw their inputs from.
use vstd::prelude::*;

use rand::rngs::StdRng;
use rand::{Rng, SeedableRng};

verus! {

#[verifier::external_type_specification]
#[verifier::external_body]
pub struct ExStdRng(StdRng);

/// `StdRng::seed_from_u64` of `rand`: a generator whose state is derived from
/// `seed`. Nothing is stated of that state.
#[verifier::external_body]
pub(crate) fn std_rng_from_seed(seed: u64) -> StdRng {
    StdRng::seed_from_u64(seed)
}

/// `Rng::fill` of `rand` on 64 bytes: overwrites them with bytes drawn from
/// the generator, which never fails for `StdRng`. Nothing is stated of the
/// bytes drawn.
#[verifier::external_body]
pub(crate) fn rng_fill_block(rng: &mut StdRng, bytes: &mut [u8; 64]) {
    rng.fill(bytes)
}

/// `Rng::gen_range` of `rand` on the range `lo..hi`: a value drawn from the
/// generator, at least `lo` and below `hi`. It panics on an empty range, which
/// `lo < hi` rules out.
#[verifier::external_body]
pub(crate) fn rng_gen_range_u32(rng: &mut StdRng, lo: u32, hi: u32) -> (r: u32)
    requires
        lo < hi,
    ensures
        lo <= r < hi,
{
    rng.gen_range(lo..hi)
}

} // verus!
