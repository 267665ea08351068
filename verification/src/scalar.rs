//! Single-precision values as bit patterns, with their order.

use vstd::arithmetic::power2::*;
use vstd::prelude::*;

verus! {

/// The bit that holds the sign.
pub const SIGN_BIT: u32 = 0x8000_0000;

/// The magnitude of an infinity: every larger magnitude is not a number.
pub const INFINITY_BITS: u32 = 0x7f80_0000;

/// The lowest bit of the exponent field, which is also the implicit leading
/// bit of a normal significand.
pub const HIDDEN_BIT: u32 = 0x0080_0000;

/// The pattern of positive zero.
pub const ZERO_BITS: u32 = 0;

/// The pattern of one.
pub const ONE_BITS: u32 = 0x3f80_0000;

/// A single-precision value, held as its thirty-two bits.
///
/// Two scalars are `==` when their bits are the same. The order of the values
/// they stand for is given by [`Scalar::lt`] and [`Scalar::le`].
#[derive(Clone, Copy, Debug, PartialEq, Eq, Structural)]
pub struct Scalar {
    pub bits: u32,
}

/// What a scalar stands for: a multiple of 2^-149, or nothing that can be
/// ordered.
///
/// Every finite single-precision value is a whole number of such units. An
/// infinity is given the first power of two beyond every finite value, so
/// that the order of the units is the order of the values.
pub enum Value {
    NotANumber,
    Units(int),
}

/// The biased exponent field of a magnitude.
pub open spec fn exponent_of(magnitude: nat) -> nat {
    magnitude / (HIDDEN_BIT as nat)
}

/// The fraction field of a magnitude.
pub open spec fn fraction_of(magnitude: nat) -> nat {
    magnitude % (HIDDEN_BIT as nat)
}

/// The significand that a magnitude encodes: the fraction field, with the
/// implicit leading bit where the exponent field is not zero.
pub open spec fn significand_of(magnitude: nat) -> nat {
    if exponent_of(magnitude) == 0 {
        fraction_of(magnitude)
    } else {
        HIDDEN_BIT as nat + fraction_of(magnitude)
    }
}

/// The power of two that scales the significand of a magnitude, counted
/// from the smallest subnormal.
pub open spec fn scale_of(magnitude: nat) -> nat {
    if exponent_of(magnitude) == 0 {
        0
    } else {
        (exponent_of(magnitude) - 1) as nat
    }
}

/// The absolute value that a magnitude encodes, in units of 2^-149.
pub open spec fn units_of(magnitude: nat) -> nat {
    significand_of(magnitude) * pow2(scale_of(magnitude))
}

impl View for Scalar {
    type V = Value;

    open spec fn view(&self) -> Value {
        if self.spec_is_nan() {
            Value::NotANumber
        } else {
            Value::Units(self.units())
        }
    }
}

impl Scalar {
    /// The sign bit is set.
    pub open spec fn negative(self) -> bool {
        self.bits >= SIGN_BIT
    }

    /// The thirty-one bits below the sign.
    pub open spec fn magnitude(self) -> nat {
        (self.bits % SIGN_BIT) as nat
    }

    /// The pattern stands for no number.
    pub open spec fn spec_is_nan(self) -> bool {
        self.magnitude() > INFINITY_BITS
    }

    /// The absolute value in units of 2^-149.
    pub open spec fn abs_units(self) -> nat {
        units_of(self.magnitude())
    }

    /// The value in units of 2^-149. Both zeros have none.
    pub open spec fn units(self) -> int {
        if self.negative() {
            -(self.abs_units() as int)
        } else {
            self.abs_units() as int
        }
    }

    /// Strictly less, as values: false as soon as either side is not a number.
    pub open spec fn spec_lt(self, other: Scalar) -> bool {
        !self.spec_is_nan() && !other.spec_is_nan() && self.units() < other.units()
    }

    /// Less or equal, as values: false as soon as either side is not a number.
    pub open spec fn spec_le(self, other: Scalar) -> bool {
        !self.spec_is_nan() && !other.spec_is_nan() && self.units() <= other.units()
    }

    /// The scalar with the given bits.
    pub fn from_bits(bits: u32) -> (s: Scalar)
        ensures
            s.bits == bits,
    {
        Scalar { bits }
    }

    /// The bits of the scalar.
    pub fn to_bits(self) -> (bits: u32)
        ensures
            bits == self.bits,
    {
        self.bits
    }

    /// Whether the scalar stands for no number.
    #[verifier::when_used_as_spec(spec_is_nan)]
    pub fn is_nan(self) -> (r: bool)
        ensures
            r == self.spec_is_nan(),
    {
        self.bits % SIGN_BIT > INFINITY_BITS
    }

    /// Strictly less, as values.
    pub fn lt(self, other: Scalar) -> (r: bool)
        ensures
            r == self.spec_lt(other),
    {
        let a: u32 = self.bits % SIGN_BIT;
        let b: u32 = other.bits % SIGN_BIT;
        if a > INFINITY_BITS || b > INFINITY_BITS {
            return false;
        }
        proof {
            lemma_units_order(a as nat, b as nat);
            lemma_units_order(0, a as nat);
            lemma_units_order(0, b as nat);
            lemma_zero_units();
        }
        if self.bits >= SIGN_BIT {
            if other.bits >= SIGN_BIT {
                b < a
            } else {
                a != 0 || b != 0
            }
        } else {
            if other.bits >= SIGN_BIT {
                false
            } else {
                a < b
            }
        }
    }

    /// Less or equal, as values.
    pub fn le(self, other: Scalar) -> (r: bool)
        ensures
            r == self.spec_le(other),
    {
        let a: u32 = self.bits % SIGN_BIT;
        let b: u32 = other.bits % SIGN_BIT;
        if a > INFINITY_BITS || b > INFINITY_BITS {
            return false;
        }
        proof {
            lemma_units_order(a as nat, b as nat);
            lemma_units_order(0, a as nat);
            lemma_units_order(0, b as nat);
            lemma_zero_units();
        }
        if self.bits >= SIGN_BIT {
            if other.bits >= SIGN_BIT {
                b <= a
            } else {
                true
            }
        } else {
            if other.bits >= SIGN_BIT {
                a == 0 && b == 0
            } else {
                a <= b
            }
        }
    }

    /// The same magnitude under the other sign.
    pub open spec fn spec_neg(self) -> Scalar {
        if self.bits >= SIGN_BIT {
            Scalar { bits: (self.bits - SIGN_BIT) as u32 }
        } else {
            Scalar { bits: (self.bits + SIGN_BIT) as u32 }
        }
    }

    /// The same magnitude under the other sign.
    pub fn neg(self) -> (r: Scalar)
        ensures
            r == self.spec_neg(),
            r.magnitude() == self.magnitude(),
            r.negative() == !self.negative(),
            r.is_nan() == self.is_nan(),
            r.units() == -self.units(),
    {
        if self.bits >= SIGN_BIT {
            Scalar { bits: self.bits - SIGN_BIT }
        } else {
            Scalar { bits: self.bits + SIGN_BIT }
        }
    }

    /// The whole part of the value, held to the range of a byte: zero for
    /// what is not a number and for every value below one, 255 for every
    /// value from 255 upwards.
    pub open spec fn spec_to_byte(self) -> u8 {
        if self.is_nan() || self.units() <= 0 {
            0
        } else if self.units() / (pow2(149) as int) >= 255 {
            255
        } else {
            (self.units() / (pow2(149) as int)) as u8
        }
    }

    /// The byte nearest to the value from the side of zero.
    pub fn to_byte(self) -> (r: u8)
        ensures
            r == self.spec_to_byte(),
    {
        let m: u32 = self.bits % SIGN_BIT;
        if self.bits >= SIGN_BIT || m > INFINITY_BITS {
            return 0;
        }
        let e: u32 = m / HIDDEN_BIT;
        let significand: u32 = if e == 0 {
            m % HIDDEN_BIT
        } else {
            HIDDEN_BIT + m % HIDDEN_BIT
        };
        proof {
            lemma_whole_part(m as nat);
        }
        if e < 127 {
            0
        } else if e >= 135 {
            255
        } else {
            let shift: u32 = 150 - e;
            proof {
                vstd::bits::lemma_u32_shr_is_div(significand, shift);
            }
            (significand >> shift) as u8
        }
    }

    /// Positive zero.
    pub fn zero() -> (s: Scalar)
        ensures
            s.bits == ZERO_BITS,
            s@ == Value::Units(0),
    {
        proof {
            lemma_zero_units();
        }
        Scalar { bits: ZERO_BITS }
    }

    /// One.
    pub fn one() -> (s: Scalar)
        ensures
            s.bits == ONE_BITS,
            s@ == Value::Units(pow2(149) as int),
    {
        proof {
            lemma_one_units();
        }
        Scalar { bits: ONE_BITS }
    }
}

/// Positive zero has no units.
pub proof fn lemma_zero_units()
    ensures
        (Scalar { bits: ZERO_BITS })@ == Value::Units(0),
{
    let z = Scalar { bits: ZERO_BITS };
    assert(z.magnitude() == 0);
    assert(significand_of(0) == 0);
    assert(units_of(0) == 0) by (nonlinear_arith)
        requires
            units_of(0) == significand_of(0) * pow2(scale_of(0)),
            significand_of(0) == 0,
    ;
}

/// One is 2^149 units.
pub proof fn lemma_one_units()
    ensures
        (Scalar { bits: ONE_BITS })@ == Value::Units(pow2(149) as int),
{
    let o = Scalar { bits: ONE_BITS };
    assert(o.magnitude() == 0x3f80_0000);
    assert(exponent_of(0x3f80_0000) == 127);
    assert(significand_of(0x3f80_0000) == 0x80_0000);
    assert(scale_of(0x3f80_0000) == 126);
    lemma2_to64();
    lemma_pow2_adds(23, 126);
}

/// A larger magnitude encodes a larger absolute value.
pub proof fn lemma_units_increase(m1: nat, m2: nat)
    requires
        m1 < m2,
    ensures
        units_of(m1) < units_of(m2),
{
    let h = HIDDEN_BIT as nat;
    let e1 = m1 / h;
    let e2 = m2 / h;
    let f1 = m1 % h;
    let f2 = m2 % h;
    let s1 = significand_of(m1);
    let s2 = significand_of(m2);
    let k1 = scale_of(m1);
    let k2 = scale_of(m2);
    lemma_pow2_pos(k1);
    lemma_pow2_pos(k2);
    assert(m1 == h * e1 + f1 && m2 == h * e2 + f2) by {
        vstd::arithmetic::div_mod::lemma_fundamental_div_mod(m1 as int, h as int);
        vstd::arithmetic::div_mod::lemma_fundamental_div_mod(m2 as int, h as int);
    }
    assert(e1 <= e2) by (nonlinear_arith)
        requires
            m1 < m2,
            h == 0x80_0000,
            e1 == m1 / h,
            e2 == m2 / h,
    ;
    if e1 == e2 {
        assert(f1 < f2);
        assert(s1 < s2);
        assert(k1 == k2);
        assert(s1 * pow2(k1) < s2 * pow2(k2)) by (nonlinear_arith)
            requires
                s1 < s2,
                k1 == k2,
                pow2(k1) > 0,
        ;
    } else if e1 == 0 {
        assert(pow2(0) == 1) by {
            lemma2_to64();
        }
        assert(s1 * pow2(k1) == s1) by (nonlinear_arith)
            requires
                k1 == 0,
                pow2(0) == 1,
        ;
        assert(s2 * pow2(k2) >= s2) by (nonlinear_arith)
            requires
                pow2(k2) > 0,
        ;
    } else {
        assert(k1 + 1 <= k2);
        assert(pow2(k1 + 1) == 2 * pow2(k1)) by {
            lemma_pow2_unfold(k1 + 1);
        }
        assert(pow2(k1 + 1) <= pow2(k2)) by {
            if k1 + 1 < k2 {
                lemma_pow2_strictly_increases(k1 + 1, k2);
            }
        }
        assert(s1 * pow2(k1) < s2 * pow2(k2)) by (nonlinear_arith)
            requires
                s1 < 2 * h,
                s2 >= h,
                h > 0,
                pow2(k1) > 0,
                2 * pow2(k1) <= pow2(k2),
        ;
    }
}

/// The whole part of the absolute value that a magnitude encodes: nothing
/// below an exponent field of 127, the significand shifted down from there
/// on, under 256 below a field of 135 and 256 or more from there on.
pub proof fn lemma_whole_part(m: nat)
    ensures
        exponent_of(m) < 127 ==> units_of(m) / pow2(149) == 0,
        127 <= exponent_of(m) < 150 ==> units_of(m) / pow2(149) == significand_of(m) / pow2(
            (150 - exponent_of(m)) as nat,
        ),
        exponent_of(m) < 135 ==> units_of(m) / pow2(149) < 256,
        exponent_of(m) >= 127 ==> units_of(m) >= pow2(149) > 0,
        exponent_of(m) >= 135 ==> units_of(m) / pow2(149) >= 256,
{
    let h = HIDDEN_BIT as nat;
    let e = m / h;
    let s = significand_of(m);
    let k = scale_of(m);
    lemma_pow2_pos(k);
    lemma_pow2_pos(149);
    lemma2_to64();
    assert(s < 2 * h);
    if e < 127 {
        assert(k <= 125);
        assert(pow2(k) <= pow2(125)) by {
            if k < 125 {
                lemma_pow2_strictly_increases(k, 125);
            }
        }
        lemma_pow2_adds(24, 125);
        assert(s * pow2(k) < pow2(149)) by (nonlinear_arith)
            requires
                s < 0x100_0000,
                pow2(k) <= pow2(125),
                pow2(149) == 0x100_0000 * pow2(125),
                pow2(k) > 0,
        ;
        vstd::arithmetic::div_mod::lemma_basic_div(units_of(m) as int, pow2(149) as int);
    } else if e < 150 {
        let j = (150 - e) as nat;
        assert(k + j == 149);
        lemma_pow2_adds(k, j);
        lemma_pow2_pos(j);
        vstd::arithmetic::div_mod::lemma_div_multiples_vanish_quotient(
            pow2(k) as int,
            s as int,
            pow2(j) as int,
        );
        assert(s * pow2(k) == pow2(k) * s) by (nonlinear_arith);
    }
    if e >= 127 {
        assert(k >= 126);
        assert(pow2(k) >= pow2(126)) by {
            if k > 126 {
                lemma_pow2_strictly_increases(126, k);
            }
        }
        lemma_pow2_adds(23, 126);
        assert(s * pow2(k) >= pow2(149)) by (nonlinear_arith)
            requires
                s >= 0x80_0000,
                pow2(k) >= pow2(126),
                0x80_0000 * pow2(126) == pow2(149),
        ;
    }
    if e < 135 {
        assert(k <= 133);
        assert(pow2(k) <= pow2(133)) by {
            if k < 133 {
                lemma_pow2_strictly_increases(k, 133);
            }
        }
        lemma_pow2_adds(24, 133);
        lemma_pow2_adds(8, 149);
        let u = units_of(m);
        let d = pow2(149);
        assert(u < 256 * d) by (nonlinear_arith)
            requires
                u == s * pow2(k),
                s < 0x100_0000,
                pow2(k) <= pow2(133),
                0x100_0000 * pow2(133) == 256 * d,
                pow2(k) > 0,
        ;
        assert(u / d < 256) by (nonlinear_arith)
            requires
                u < 256 * d,
                d > 0,
        ;
    }
    if e >= 135 {
        assert(k >= 134);
        assert(pow2(k) >= pow2(134)) by {
            if k > 134 {
                lemma_pow2_strictly_increases(134, k);
            }
        }
        lemma_pow2_adds(23, 134);
        lemma_pow2_adds(8, 149);
        assert(s * pow2(k) >= 256 * pow2(149)) by (nonlinear_arith)
            requires
                s >= 0x80_0000,
                pow2(k) >= pow2(134),
                0x80_0000 * pow2(134) == 256 * pow2(149),
        ;
        vstd::arithmetic::div_mod::lemma_div_is_ordered(
            256 * pow2(149) as int,
            units_of(m) as int,
            pow2(149) as int,
        );
        vstd::arithmetic::div_mod::lemma_div_multiples_vanish(256, pow2(149) as int);
        assert(256 * pow2(149) == pow2(149) * 256) by (nonlinear_arith);
    }
}

/// Magnitudes are ordered as the absolute values they encode.
pub proof fn lemma_units_order(m1: nat, m2: nat)
    ensures
        m1 < m2 <==> units_of(m1) < units_of(m2),
        m1 == m2 <==> units_of(m1) == units_of(m2),
{
    if m1 < m2 {
        lemma_units_increase(m1, m2);
    } else if m2 < m1 {
        lemma_units_increase(m2, m1);
    }
}

} // verus!
