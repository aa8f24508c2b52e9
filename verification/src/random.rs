//! The random source and the few calls made on it.
//!
//! Everything in this module is trusted: the contracts below restate what the
//! `rand` crate documents and are not proved.

use rand::rngs::StdRng;
use rand::Rng;
use rand::SeedableRng;
use vstd::prelude::*;

verus! {

/// `rand::rngs::StdRng`, the generator that dice are rolled with. It is
/// opaque: nothing is known of its state or of what it will draw.
#[verifier::external_type_specification]
#[verifier::external_body]
pub struct ExStdRng(StdRng);

/// Calls `rand::Rng::gen_range` on the half-open range `low..high` of `i32`.
///
/// `gen_range` panics on an empty range, so the range must be non-empty; the
/// value it returns lies inside the range. Nothing is claimed about which
/// value comes back or about the state of the generator afterwards.
#[verifier::external_body]
pub(crate) fn random_i32(rng: &mut StdRng, low: i32, high: i32) -> (k: i32)
    requires
        low < high,
    ensures
        low <= k < high,
{
    rng.gen_range(low..high)
}

/// Calls `rand::Rng::gen_range` on the half-open range `0..len` of `usize`.
///
/// `gen_range` panics on an empty range, so `len` must be positive; the index
/// it returns is below `len`.
#[verifier::external_body]
pub(crate) fn random_index(rng: &mut StdRng, len: usize) -> (k: usize)
    requires
        0 < len,
    ensures
        k < len,
{
    rng.gen_range(0..len)
}

/// Calls `rand::SeedableRng::from_entropy` for `StdRng`: a generator seeded
/// from the operating system. Nothing is claimed about it. The call takes
/// no input; it panics only where the system can give no entropy at all.
#[verifier::external_body]
pub(crate) fn entropy_rng() -> StdRng {
    StdRng::from_entropy()
}

} // verus!
