//! The seeded source of the random bits that fleeing attackers use.

use rand::rngs::StdRng;
use rand::{RngCore, SeedableRng};
use vstd::prelude::*;

verus! {

/// Sixty-four random bits for one tick: the first output of
/// `rand::rngs::StdRng`, seeded with `stream` through
/// `SeedableRng::seed_from_u64`. Nothing is claimed of the bits, so whatever
/// is proved of a caller holds for every value that could come back.
#[verifier::external_body]
pub(crate) fn draw_roll(stream: u64) -> (roll: u64) {
    let mut rng = StdRng::seed_from_u64(stream);
    rng.next_u64()
}

} // verus!
