//! The random source that board generation and the computer gunner draw on.

use vstd::prelude::*;
use rand::rngs::StdRng;
use rand::Rng;

verus! {

/// The standard seedable generator of `rand`; its state is opaque here.
#[verifier::external_type_specification]
#[verifier::external_body]
pub struct ExStdRng(StdRng);

/// Calls `rand::Rng::gen_range(0..n)` on bytes: a uniformly drawn value
/// below `n`. Trusted: the result lies in the range asked for. The range
/// must not be empty, since `gen_range` panics on an empty range.
#[verifier::external_body]
pub(crate) fn random_below(rng: &mut StdRng, n: u8) -> (r: u8)
    requires
        n > 0,
    ensures
        r < n,
{
    rng.gen_range(0..n)
}

/// Calls `rand::Rng::gen_ratio(numerator, denominator)`: true with chance
/// `numerator` in `denominator`. Trusted: as `rand` documents, a zero
/// numerator always gives false and a numerator equal to the denominator
/// always gives true. `gen_ratio` panics on a zero denominator or a
/// numerator above it, which the precondition leaves out.
#[verifier::external_body]
pub(crate) fn random_ratio(rng: &mut StdRng, numerator: u32, denominator: u32) -> (b: bool)
    requires
        0 < denominator,
        numerator <= denominator,
    ensures
        numerator == 0 ==> !b,
        numerator == denominator ==> b,
{
    rng.gen_ratio(numerator, denominator)
}

/// Calls `rand::Rng::fill` on a 32-byte array: 256 random bits. Nothing is
/// promised of the bytes.
#[verifier::external_body]
pub(crate) fn random_bytes32(rng: &mut StdRng) -> [u8; 32] {
    let mut bytes = [0u8; 32];
    rng.fill(&mut bytes);
    bytes
}

} // verus!
