//! Colours, and the bytes that a display is given for them.

use crate::scalar::{Scalar, ZERO_BITS};
use vstd::prelude::*;

verus! {

/// A colour: how much red, green and blue.
#[derive(Clone, Copy, Debug, PartialEq, Eq, Structural)]
pub struct Color {
    pub r: Scalar,
    pub g: Scalar,
    pub b: Scalar,
}

impl Color {
    /// The channel with the given number: red, green, and blue for every
    /// other number.
    pub open spec fn channel(self, c: int) -> Scalar {
        if c == 0 {
            self.r
        } else if c == 1 {
            self.g
        } else {
            self.b
        }
    }

    /// The colour with the given channels.
    pub fn new(r: Scalar, g: Scalar, b: Scalar) -> (c: Color)
        ensures
            c.r == r,
            c.g == g,
            c.b == b,
    {
        Color { r, g, b }
    }

    /// No light in any channel.
    pub fn black() -> (c: Color)
        ensures
            c.r.bits == ZERO_BITS,
            c.g.bits == ZERO_BITS,
            c.b.bits == ZERO_BITS,
    {
        Color { r: Scalar::zero(), g: Scalar::zero(), b: Scalar::zero() }
    }

    /// The three bytes of the colour: the whole part of each channel, held
    /// to the range of a byte.
    pub fn to_rgb(&self) -> (rgb: [u8; 3])
        ensures
            rgb[0] == self.r.spec_to_byte(),
            rgb[1] == self.g.spec_to_byte(),
            rgb[2] == self.b.spec_to_byte(),
    {
        [self.r.to_byte(), self.g.to_byte(), self.b.to_byte()]
    }
}

} // verus!
