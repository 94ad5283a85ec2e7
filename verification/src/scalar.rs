//! Binary64 values held as their bit patterns.
//!
//! A [`Scalar`] is one IEEE 754 double-precision number: a sign, eleven exponent
//! bits and fifty-two fraction bits. Nothing here uses machine floating point; a
//! value is read through integer arithmetic on its pattern.

use crate::rounding::{pack, HIDDEN_BIT, INFINITY_BITS, MIN_EXPONENT, SIGN_BIT};
use vstd::arithmetic::power2::{lemma2_to64_rest, pow2};
use vstd::prelude::*;

verus! {

/// One binary64 number.
#[derive(Clone, Copy, Debug, PartialEq, Eq, Structural)]
pub struct Scalar {
    pub bits: u64,
}

/// What a bit pattern stands for.
pub enum Number {
    /// No number: the result of an invalid operation.
    NotANumber,
    /// Beyond every finite value.
    Infinity { negative: bool },
    /// The value `significand * 2^exponent`, with its sign. Zero has a sign too.
    Finite { negative: bool, significand: nat, exponent: int },
}

impl View for Scalar {
    type V = Number;

    open spec fn view(&self) -> Number {
        if self.is_nan() {
            Number::NotANumber
        } else if self.is_infinite() {
            Number::Infinity { negative: self.is_negative() }
        } else {
            Number::Finite {
                negative: self.is_negative(),
                significand: self.significand(),
                exponent: self.exponent(),
            }
        }
    }
}

/// The quiet NaN that every invalid operation returns.
pub const NAN_BITS: u64 = 0x7FF8_0000_0000_0000;

/// Significand and exponent of a finite value are in their ranges, and packing
/// them gives the magnitude back.
pub proof fn lemma_pack_of_decoded(t: Scalar)
    requires
        t.is_finite(),
    ensures
        t.significand() < pow2(53),
        t.exponent() >= MIN_EXPONENT,
        t.significand() >= pow2(52) || t.exponent() == MIN_EXPONENT,
        !t.is_zero() ==> t.significand() > 0,
        pack(false, t.significand(), t.exponent()) == t.magnitude(),
{
    lemma2_to64_rest();
}

/// `x` is the opposite of `y`, or neither is a number.
pub open spec fn opposite(x: Scalar, y: Scalar) -> bool {
    (x.is_nan() && y.is_nan()) || (!y.is_nan() && x == y.negation())
}

/// `x` and `y` are numbers of the same size and opposite sign, or neither is a
/// number. Two zeros balance whatever their signs.
pub open spec fn balanced(x: Scalar, y: Scalar) -> bool {
    (x.is_nan() && y.is_nan()) || x.same_number(y.negation())
}

/// A pattern that is a number stands for one value only, and no other pattern
/// stands for the same: only the patterns of NaN are many.
pub proof fn lemma_view_is_faithful(a: Scalar, b: Scalar)
    requires
        a@ == b@,
        !a.is_nan(),
    ensures
        a == b,
{
    if a.is_finite() {
        lemma_pack_of_decoded(a);
        lemma_pack_of_decoded(b);
    }
}

impl Scalar {
    /// The pattern without its sign.
    pub open spec fn magnitude(self) -> nat {
        (self.bits % SIGN_BIT) as nat
    }

    /// Whether the sign bit is set (also true of `-0` and of some NaNs).
    pub open spec fn is_negative(self) -> bool {
        self.bits >= SIGN_BIT
    }

    pub open spec fn is_nan(self) -> bool {
        self.magnitude() > INFINITY_BITS
    }

    pub open spec fn is_infinite(self) -> bool {
        self.magnitude() == INFINITY_BITS
    }

    pub open spec fn is_zero(self) -> bool {
        self.magnitude() == 0
    }

    /// Zero, subnormal or normal.
    pub open spec fn is_finite(self) -> bool {
        self.magnitude() < INFINITY_BITS
    }

    /// The integer `m` of a finite value `m * 2^e`.
    pub open spec fn significand(self) -> nat {
        if self.magnitude() < HIDDEN_BIT {
            self.magnitude()
        } else {
            HIDDEN_BIT as nat + self.magnitude() % (HIDDEN_BIT as nat)
        }
    }

    /// The integer `e` of a finite value `m * 2^e`.
    pub open spec fn exponent(self) -> int {
        if self.magnitude() < HIDDEN_BIT {
            MIN_EXPONENT as int
        } else {
            self.magnitude() / (HIDDEN_BIT as nat) + MIN_EXPONENT - 1
        }
    }

    /// Strictly greater than zero: positive, possibly infinite, never a NaN.
    pub open spec fn is_positive(self) -> bool {
        !self.is_negative() && 0 < self.magnitude() <= INFINITY_BITS
    }

    pub open spec fn nan() -> Scalar {
        Scalar { bits: NAN_BITS }
    }

    pub open spec fn signed_zero(negative: bool) -> Scalar {
        Scalar {
            bits: if negative {
                SIGN_BIT
            } else {
                0
            },
        }
    }

    pub open spec fn signed_infinity(negative: bool) -> Scalar {
        Scalar {
            bits: if negative {
                (SIGN_BIT + INFINITY_BITS) as u64
            } else {
                INFINITY_BITS
            },
        }
    }

    /// The same magnitude with the opposite sign.
    pub open spec fn negation(self) -> Scalar {
        Scalar {
            bits: if self.bits >= SIGN_BIT {
                (self.bits - SIGN_BIT) as u64
            } else {
                (self.bits + SIGN_BIT) as u64
            },
        }
    }

    /// Numeric equality: the patterns agree, or both are zeros; a NaN equals nothing.
    pub open spec fn same_number(self, other: Scalar) -> bool {
        !self.is_nan() && !other.is_nan() && (self.bits == other.bits || (self.is_zero()
            && other.is_zero()))
    }

    /// Position of a non-NaN value on the number line: magnitudes grow with the
    /// value, so the signed magnitude orders the values.
    pub open spec fn rank(self) -> int {
        if self.is_negative() {
            -(self.magnitude() as int)
        } else {
            self.magnitude() as int
        }
    }

    /// Numeric `<`; false whenever a NaN is involved.
    pub open spec fn less_than(self, other: Scalar) -> bool {
        !self.is_nan() && !other.is_nan() && self.rank() < other.rank()
    }

    pub fn from_bits(bits: u64) -> (r: Scalar)
        ensures
            r.bits == bits,
    {
        Scalar { bits }
    }

    pub fn to_bits(self) -> (bits: u64)
        ensures
            bits == self.bits,
    {
        self.bits
    }

    pub fn zero() -> (r: Scalar)
        ensures
            r == Scalar::signed_zero(false),
    {
        Scalar { bits: 0 }
    }

    pub fn one() -> (r: Scalar)
        ensures
            r.bits == 0x3FF0_0000_0000_0000,
    {
        Scalar { bits: 0x3FF0_0000_0000_0000 }
    }

    pub fn two() -> (r: Scalar)
        ensures
            r.bits == 0x4000_0000_0000_0000,
    {
        Scalar { bits: 0x4000_0000_0000_0000 }
    }

    pub fn six() -> (r: Scalar)
        ensures
            r.bits == 0x4018_0000_0000_0000,
    {
        Scalar { bits: 0x4018_0000_0000_0000 }
    }

    pub(crate) fn abs_bits(self) -> (m: u64)
        ensures
            m == self.magnitude(),
    {
        self.bits % SIGN_BIT
    }

    pub fn sign_negative(self) -> (negative: bool)
        ensures
            negative == self.is_negative(),
    {
        self.bits >= SIGN_BIT
    }

    pub fn nan_check(self) -> (nan: bool)
        ensures
            nan == self.is_nan(),
    {
        self.abs_bits() > INFINITY_BITS
    }

    pub fn infinite_check(self) -> (infinite: bool)
        ensures
            infinite == self.is_infinite(),
    {
        self.abs_bits() == INFINITY_BITS
    }

    pub fn zero_check(self) -> (zero: bool)
        ensures
            zero == self.is_zero(),
    {
        self.abs_bits() == 0
    }

    pub fn finite_check(self) -> (finite: bool)
        ensures
            finite == self.is_finite(),
    {
        self.abs_bits() < INFINITY_BITS
    }

    pub fn positive_check(self) -> (positive: bool)
        ensures
            positive == self.is_positive(),
    {
        self.bits > 0 && self.bits <= INFINITY_BITS
    }

    pub(crate) fn sig(self) -> (m: u64)
        ensures
            m == self.significand(),
            m < 2 * HIDDEN_BIT,
            self.magnitude() >= HIDDEN_BIT ==> m >= HIDDEN_BIT,
            self.is_zero() <==> m == 0,
    {
        let a: u64 = self.abs_bits();
        if a < HIDDEN_BIT {
            a
        } else {
            HIDDEN_BIT + a % HIDDEN_BIT
        }
    }

    pub(crate) fn exp(self) -> (e: i64)
        ensures
            e == self.exponent(),
            MIN_EXPONENT <= e <= 972,
            self.is_finite() ==> e <= 971,
            e > MIN_EXPONENT ==> self.magnitude() >= HIDDEN_BIT,
    {
        let a: u64 = self.abs_bits();
        if a < HIDDEN_BIT {
            MIN_EXPONENT
        } else {
            (a / HIDDEN_BIT) as i64 + MIN_EXPONENT - 1
        }
    }

    pub(crate) fn make_nan() -> (r: Scalar)
        ensures
            r == Scalar::nan(),
            r.is_nan(),
    {
        Scalar { bits: NAN_BITS }
    }

    pub(crate) fn make_zero(negative: bool) -> (r: Scalar)
        ensures
            r == Scalar::signed_zero(negative),
    {
        Scalar {
            bits: if negative {
                SIGN_BIT
            } else {
                0
            },
        }
    }

    pub(crate) fn make_infinity(negative: bool) -> (r: Scalar)
        ensures
            r == Scalar::signed_infinity(negative),
    {
        Scalar {
            bits: if negative {
                SIGN_BIT + INFINITY_BITS
            } else {
                INFINITY_BITS
            },
        }
    }

    /// Flips the sign, of a NaN too.
    pub fn neg(self) -> (r: Scalar)
        ensures
            r == self.negation(),
    {
        Scalar {
            bits: if self.bits >= SIGN_BIT {
                self.bits - SIGN_BIT
            } else {
                self.bits + SIGN_BIT
            },
        }
    }

    /// Numeric `<`.
    pub fn lt(self, other: Scalar) -> (less: bool)
        ensures
            less == self.less_than(other),
    {
        if self.nan_check() || other.nan_check() {
            return false;
        }
        let a: u64 = self.abs_bits();
        let b: u64 = other.abs_bits();
        if self.sign_negative() {
            if other.sign_negative() {
                b < a
            } else {
                a > 0 || b > 0
            }
        } else {
            if other.sign_negative() {
                false
            } else {
                a < b
            }
        }
    }

    /// Numeric `==`.
    pub fn num_eq(self, other: Scalar) -> (same: bool)
        ensures
            same == self.same_number(other),
    {
        if self.nan_check() || other.nan_check() {
            return false;
        }
        self.bits == other.bits || (self.abs_bits() == 0 && other.abs_bits() == 0)
    }
}

} // verus!
