//! Clamping of cosines.

use crate::scalar::{lemma_one_units, lemma_zero_units, Scalar, ONE_BITS, ZERO_BITS};
use vstd::arithmetic::power2::*;
use vstd::prelude::*;

verus! {

/// The value held to the range from zero to one.
///
/// What lies below zero becomes zero and what lies above one becomes one.
/// What is not a number becomes one. Every other scalar, negative zero among
/// them, is left as it is.
pub open spec fn spec_saturate(v: Scalar) -> Scalar {
    if v.is_nan() {
        Scalar { bits: ONE_BITS }
    } else if v.units() < 0 {
        Scalar { bits: ZERO_BITS }
    } else if v.units() > pow2(149) {
        Scalar { bits: ONE_BITS }
    } else {
        v
    }
}

/// Holds a value to the range from zero to one.
pub fn saturate(v: Scalar) -> (r: Scalar)
    ensures
        r == spec_saturate(v),
        !r.is_nan(),
        0 <= r.units() <= pow2(149),
{
    proof {
        lemma_zero_units();
        lemma_one_units();
    }
    let zero = Scalar::zero();
    let one = Scalar::one();
    if v.is_nan() {
        one
    } else if v.lt(zero) {
        zero
    } else if one.lt(v) {
        one
    } else {
        v
    }
}

} // verus!
