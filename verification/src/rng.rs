//! Random-number plumbing: thin trusted wrappers around the `rand` crate and
//! a verified integer approximation of a centered normal draw.

use vstd::prelude::*;

use rand::Rng;
use rand::SeedableRng;

verus! {

#[verifier::external_type_specification]
#[verifier::external_body]
pub struct ExStdRng(rand::rngs::StdRng);

/// Relies on `rand::rngs::StdRng::seed_from_u64` (`rand_core::SeedableRng`):
/// builds a generator from a 64-bit seed.
#[verifier::external_body]
pub(crate) fn rng_from_seed(seed: u64) -> rand::rngs::StdRng {
    rand::rngs::StdRng::seed_from_u64(seed)
}

/// Relies on `rand::random::<u64>`: an arbitrary 64-bit value from the
/// thread-local generator. Nothing can be promised of the value.
#[verifier::external_body]
pub(crate) fn random_seed() -> u64 {
    rand::random()
}

/// Relies on `rand::Rng::gen_range` over `0..bound`: a value drawn uniformly
/// from the range, hence strictly below `bound`. The call panics on an empty
/// range, so the bound must be positive.
#[verifier::external_body]
pub(crate) fn rand_below(rng: &mut rand::rngs::StdRng, bound: u32) -> (r: u32)
    requires
        bound >= 1,
    ensures
        r < bound,
{
    rng.gen_range(0..bound)
}

/// Relies on `rand::Rng::gen::<u64>`: an arbitrary 64-bit value.
#[verifier::external_body]
pub(crate) fn rand_u64(rng: &mut rand::rngs::StdRng) -> u64 {
    rng.gen()
}

/// An integer stand-in for a draw from a normal distribution centered on 0
/// with standard deviation close to `div`: the sum of twelve uniform draws
/// over `0..=div`, recentered. The result always lies in `[-6*div, 6*div]`.
pub(crate) fn centered_draw(rng: &mut rand::rngs::StdRng, div: u32) -> (r: i64)
    requires
        div < u32::MAX,
    ensures
        -6 * (div as int) <= r <= 6 * (div as int),
{
    if div == 0 {
        return 0;
    }
    let mut sum: u64 = 0;
    let mut k: u32 = 0;
    while k < 12
        invariant
            div >= 1,
            div < u32::MAX,
            k <= 12,
            sum <= k as int * div as int,
            sum <= 12 * (div as int),
        decreases 12 - k,
    {
        let d = rand_below(rng, div + 1);
        proof {
            assert(sum + d <= (k + 1) * (div as int) && (k + 1) * (div as int) <= 12 * (div as int))
                by (nonlinear_arith)
                requires
                    sum <= k as int * div as int,
                    d <= div as int,
                    k < 12,
                    div >= 1,
            ;
        }
        sum = sum + d as u64;
        k = k + 1;
    }
    sum as i64 - 6 * (div as i64)
}

} // verus!
