//! Random draws for the sampler, from the `rand` crate behind one trusted
//! wrapper. Nothing is assumed of the values drawn: every caller states what
//! holds of its result whatever came back.

use crate::scalar::Fx;
use vstd::prelude::*;

verus! {

/// Relies on rand::random: one uniform pseudo-random draw. Nothing can be
/// promised of the value, so the contract says nothing; callers state what
/// holds of every outcome.
#[verifier::external_body]
pub(crate) fn random_u32() -> u32 {
    rand::random::<u32>()
}

/// A random fixed-point value in `[0, 1)`: a raw count in `[0, 65536)`.
pub fn random_unit() -> (r: Fx)
    ensures
        0 <= r.raw < 65536,
{
    let bits: u32 = random_u32() % 65536;
    Fx::from_raw(bits as i64)
}

} // verus!
