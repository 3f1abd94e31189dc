//! Numbers in the IEEE 754 binary64 format, held as their 64-bit patterns.
//!
//! Loads, rewards and value estimates are binary64 numbers. The library keeps
//! each of them as the pattern of its 64 bits and orders them by what the
//! pattern denotes: the sign, the eleven exponent bits and the fifty-two
//! fraction bits give a multiple of two to the power of -1074, so every number
//! times two to the power of 1074 is an integer, and comparing numbers is
//! comparing integers. Arithmetic on the numbers is left to the caller.

use vstd::prelude::*;
use vstd::arithmetic::power2::{pow2, lemma_pow2_pos, lemma_pow2_unfold, lemma_pow2_adds,
    lemma_pow2_strictly_increases, lemma2_to64_rest};

verus! {

/// The sign bit of a pattern.
pub const SIGN_BIT: u64 = 0x8000_0000_0000_0000;

/// The pattern of positive infinity: all exponent bits set, no fraction bit.
pub const INFINITY_BITS: u64 = 0x7FF0_0000_0000_0000;

/// The pattern of negative infinity.
pub const NEG_INFINITY_BITS: u64 = 0xFFF0_0000_0000_0000;

/// Two to the power of fifty-two: the weight of the lowest exponent bit.
pub const FRACTION_RANGE: u64 = 0x0010_0000_0000_0000;

/// The pattern of zero.
pub const ZERO_BITS: u64 = 0x0000_0000_0000_0000;

/// The pattern of one half.
pub const HALF_BITS: u64 = 0x3FE0_0000_0000_0000;

/// The pattern of one.
pub const ONE_BITS: u64 = 0x3FF0_0000_0000_0000;

/// The pattern of two.
pub const TWO_BITS: u64 = 0x4000_0000_0000_0000;

/// The pattern of three.
pub const THREE_BITS: u64 = 0x4008_0000_0000_0000;

/// A binary64 number, as its bit pattern.
///
/// Two values are equal when their patterns are: the two zeros differ, and a
/// NaN equals itself. The order of the numbers is `spec_lt`.
#[derive(Clone, Copy, Debug, PartialEq, Eq, Structural)]
pub struct Binary64 {
    pub bits: u64,
}

/// Two to the power of 1074: what the number one is scaled to.
pub open spec fn unit() -> nat {
    pow2(1074)
}

impl Binary64 {
    /// The sign bit is set.
    pub open spec fn is_negative(self) -> bool {
        self.bits >= SIGN_BIT
    }

    /// The pattern without its sign bit.
    pub open spec fn abs_bits(self) -> nat {
        if self.bits >= SIGN_BIT {
            (self.bits - SIGN_BIT) as nat
        } else {
            self.bits as nat
        }
    }

    /// The eleven exponent bits, as a number below 2048.
    pub open spec fn exponent_field(self) -> nat {
        self.abs_bits() / (FRACTION_RANGE as nat)
    }

    /// The fifty-two fraction bits.
    pub open spec fn fraction_field(self) -> nat {
        self.abs_bits() % (FRACTION_RANGE as nat)
    }

    /// The pattern is a NaN: all exponent bits set and some fraction bit.
    pub open spec fn spec_is_nan(self) -> bool {
        self.exponent_field() == 2047 && self.fraction_field() != 0
    }

    /// The absolute value times two to the power of 1074.
    ///
    /// With no exponent bit set the number is subnormal and the fraction bits
    /// count its multiples of the smallest step. Otherwise the fraction has a
    /// leading one bit in front and each step of the exponent doubles it. An
    /// infinity gets the value that the next exponent would have, above every
    /// finite number.
    pub open spec fn magnitude(self) -> nat {
        if self.exponent_field() == 0 {
            self.fraction_field()
        } else {
            (FRACTION_RANGE as nat + self.fraction_field()) * pow2(
                (self.exponent_field() - 1) as nat,
            )
        }
    }

    /// The number times two to the power of 1074. Meaningful unless the pattern
    /// is a NaN.
    pub open spec fn scaled(self) -> int {
        if self.is_negative() {
            -(self.magnitude() as int)
        } else {
            self.magnitude() as int
        }
    }

    /// `self < other` as binary64 numbers: neither is a NaN and the one denotes
    /// less than the other. The two zeros denote the same.
    pub open spec fn spec_lt(self, other: Binary64) -> bool {
        !self.spec_is_nan() && !other.spec_is_nan() && self.scaled() < other.scaled()
    }

    /// `self > other` as binary64 numbers.
    pub open spec fn spec_gt(self, other: Binary64) -> bool {
        other.spec_lt(self)
    }

    /// The number zero.
    pub open spec fn zero() -> Binary64 {
        Binary64 { bits: ZERO_BITS }
    }

    /// The number one half.
    pub open spec fn half() -> Binary64 {
        Binary64 { bits: HALF_BITS }
    }

    /// The number one.
    pub open spec fn one() -> Binary64 {
        Binary64 { bits: ONE_BITS }
    }

    /// The number two.
    pub open spec fn two() -> Binary64 {
        Binary64 { bits: TWO_BITS }
    }

    /// The number three.
    pub open spec fn three() -> Binary64 {
        Binary64 { bits: THREE_BITS }
    }

    /// Negative infinity.
    pub open spec fn neg_infinity() -> Binary64 {
        Binary64 { bits: NEG_INFINITY_BITS }
    }

    /// The magnitude grows with the pattern once the sign bit is set aside.
    pub proof fn lemma_magnitude_increases(self, other: Binary64)
        requires
            self.abs_bits() < other.abs_bits(),
        ensures
            self.magnitude() < other.magnitude(),
    {
        let ea = self.exponent_field();
        let fa = self.fraction_field();
        let eb = other.exponent_field();
        let fb = other.fraction_field();
        let range = FRACTION_RANGE as nat;
        if ea == eb {
            if ea != 0 {
                let p = pow2((ea - 1) as nat);
                lemma_pow2_pos((ea - 1) as nat);
                assert((range + fa) * p < (range + fb) * p) by (nonlinear_arith)
                    requires
                        fa < fb,
                        p > 0,
                ;
            }
        } else {
            // The smaller exponent stays below the next power, the larger one
            // starts at its own.
            let top = range * pow2(ea);
            assert(self.magnitude() < top) by {
                if ea == 0 {
                    assert(pow2(0) == 1) by {
                        vstd::arithmetic::power2::lemma2_to64();
                    }
                } else {
                    let p = pow2((ea - 1) as nat);
                    lemma_pow2_unfold(ea);
                    lemma_pow2_pos((ea - 1) as nat);
                    assert((range + fa) * p < range * (2 * p)) by (nonlinear_arith)
                        requires
                            fa < range,
                            p > 0,
                    ;
                }
            }
            let q = pow2((eb - 1) as nat);
            assert(pow2(ea) <= q) by {
                if ea < eb - 1 {
                    lemma_pow2_strictly_increases(ea, (eb - 1) as nat);
                }
            }
            assert(top <= (range + fb) * q) by (nonlinear_arith)
                requires
                    top == range * pow2(ea),
                    pow2(ea) <= q,
            ;
        }
    }

    /// Only the two zeros have magnitude zero.
    pub proof fn lemma_magnitude_zero(self)
        ensures
            self.magnitude() == 0 <==> self.abs_bits() == 0,
    {
        let e = self.exponent_field();
        let f = self.fraction_field();
        let range = FRACTION_RANGE as nat;
        vstd::arithmetic::div_mod::lemma_fundamental_div_mod(self.abs_bits() as int, range as int);
        if e != 0 {
            let p = pow2((e - 1) as nat);
            lemma_pow2_pos((e - 1) as nat);
            assert((range + f) * p > 0) by (nonlinear_arith)
                requires
                    range > 0,
                    p > 0,
            ;
        }
    }

    /// What the named constants denote: one is the unit, one half is half of
    /// it, two and three are twice and three times it, and zero is nothing.
    pub proof fn lemma_constants()
        ensures
            !Self::zero().spec_is_nan() && Self::zero().scaled() == 0,
            !Self::half().spec_is_nan() && 2 * Self::half().scaled() == unit(),
            !Self::one().spec_is_nan() && Self::one().scaled() == unit(),
            !Self::two().spec_is_nan() && Self::two().scaled() == 2 * unit(),
            !Self::three().spec_is_nan() && Self::three().scaled() == 3 * unit(),
    {
        lemma2_to64_rest();
        let range = FRACTION_RANGE as nat;
        lemma_pow2_adds(52, 1021);
        lemma_pow2_adds(52, 1022);
        lemma_pow2_adds(51, 1023);
        lemma_pow2_unfold(1074);
        lemma_pow2_unfold(1023);
        lemma_pow2_unfold(52);
        let p = pow2(1023);
        assert((range + 0x8_0000_0000_0000) * p == 3 * (pow2(51) * p)) by (nonlinear_arith)
            requires
                range == 2 * pow2(51),
                pow2(51) == 0x8_0000_0000_0000,
        ;
        assert(range * p == 2 * (pow2(51) * p)) by (nonlinear_arith)
            requires
                range == 2 * pow2(51),
        ;
    }

    /// Negative infinity is below every number but itself.
    pub proof fn lemma_neg_infinity_least(self)
        requires
            !self.spec_is_nan(),
        ensures
            !self.spec_lt(Self::neg_infinity()),
            self != Self::neg_infinity() ==> Self::neg_infinity().spec_lt(self),
    {
        let low = Self::neg_infinity();
        if self.abs_bits() < low.abs_bits() {
            self.lemma_magnitude_increases(low);
        }
        low.lemma_magnitude_zero();
    }

    /// Whether the pattern is a NaN.
    #[verifier::when_used_as_spec(spec_is_nan)]
    pub fn is_nan(self) -> (r: bool)
        ensures
            r == self.spec_is_nan(),
    {
        let abs: u64 = if self.bits >= SIGN_BIT {
            self.bits - SIGN_BIT
        } else {
            self.bits
        };
        abs > INFINITY_BITS
    }

    /// Whether `self < other` as binary64 numbers; false when either is a NaN.
    #[verifier::when_used_as_spec(spec_lt)]
    pub fn lt(self, other: Binary64) -> (r: bool)
        ensures
            r == self.spec_lt(other),
    {
        if self.is_nan() || other.is_nan() {
            return false;
        }
        let self_negative: bool = self.bits >= SIGN_BIT;
        let other_negative: bool = other.bits >= SIGN_BIT;
        let a: u64 = if self_negative {
            self.bits - SIGN_BIT
        } else {
            self.bits
        };
        let b: u64 = if other_negative {
            other.bits - SIGN_BIT
        } else {
            other.bits
        };
        proof {
            self.lemma_magnitude_zero();
            other.lemma_magnitude_zero();
            if a < b {
                self.lemma_magnitude_increases(other);
            }
            if b < a {
                other.lemma_magnitude_increases(self);
            }
        }
        if self_negative {
            if other_negative {
                b < a
            } else {
                a != 0 || b != 0
            }
        } else {
            if other_negative {
                false
            } else {
                a < b
            }
        }
    }

    /// Whether `self > other` as binary64 numbers; false when either is a NaN.
    #[verifier::when_used_as_spec(spec_gt)]
    pub fn gt(self, other: Binary64) -> (r: bool)
        ensures
            r == self.spec_gt(other),
    {
        other.lt(self)
    }
}

} // verus!
