//! Multiplication of binary64 values.

use crate::rounding::{lemma_round_pack_sign, round_pack, round_to_bits};
use crate::scalar::{balanced, Scalar};
use vstd::prelude::*;

verus! {

/// The product of two binary64 values, correctly rounded.
///
/// Two finite nonzero values `ma * 2^ea` and `mb * 2^eb` have the exact product
/// `(ma * mb) * 2^(ea + eb)`, which is then rounded once.
#[verifier::opaque]
pub open spec fn product(a: Scalar, b: Scalar) -> Scalar {
    let negative = a.is_negative() != b.is_negative();
    if a.is_nan() || b.is_nan() {
        Scalar::nan()
    } else if a.is_infinite() || b.is_infinite() {
        if a.is_zero() || b.is_zero() {
            Scalar::nan()
        } else {
            Scalar::signed_infinity(negative)
        }
    } else if a.is_zero() || b.is_zero() {
        Scalar::signed_zero(negative)
    } else {
        Scalar {
            bits: round_pack(
                negative,
                a.significand() * b.significand(),
                a.exponent() + b.exponent(),
                false,
            ),
        }
    }
}

impl Scalar {
    /// `self * rhs`, rounded to nearest, ties to even.
    pub fn mul(self, rhs: Scalar) -> (r: Scalar)
        ensures
            r == product(self, rhs),
    {
        proof {
            reveal(product);
        }
        let negative: bool = self.sign_negative() != rhs.sign_negative();
        if self.nan_check() || rhs.nan_check() {
            return Scalar::make_nan();
        }
        if self.infinite_check() || rhs.infinite_check() {
            if self.zero_check() || rhs.zero_check() {
                return Scalar::make_nan();
            }
            return Scalar::make_infinity(negative);
        }
        if self.zero_check() || rhs.zero_check() {
            return Scalar::make_zero(negative);
        }
        let ma: u64 = self.sig();
        let mb: u64 = rhs.sig();
        assert(0 < ma * mb < 0x400_0000_0000_0000_0000_0000_0000) by (nonlinear_arith)
            requires
                0 < ma < 0x20_0000_0000_0000,
                0 < mb < 0x20_0000_0000_0000,
        ;
        let sig: u128 = (ma as u128) * (mb as u128);
        let exp: i64 = self.exp() + rhs.exp();
        Scalar { bits: round_to_bits(negative, sig, exp, false) }
    }
}

/// Zero times a finite value is zero.
pub proof fn lemma_product_of_zero(h: Scalar)
    requires
        h.is_finite(),
    ensures
        product(Scalar::signed_zero(false), h) == Scalar::signed_zero(h.is_negative()),
{
    reveal(product);
}

/// The product of the opposite value is the opposite product; where there is no
/// product, there is none for the opposite value either.
pub proof fn lemma_product_of_negation(a: Scalar, k: Scalar)
    ensures
        product(a, k).is_nan() <==> product(a.negation(), k).is_nan(),
        !product(a, k).is_nan() ==> product(a.negation(), k) == product(a, k).negation(),
{
    reveal(product);
    let c = a.negation();
    assert(c.magnitude() == a.magnitude());
    assert(c.is_negative() != a.is_negative());
    lemma_round_pack_sign(a.significand() * k.significand(), a.exponent() + k.exponent(), false);
}

/// Balanced values stay balanced when both are multiplied by the same factor.
pub proof fn lemma_balanced_product(x: Scalar, y: Scalar, k: Scalar)
    requires
        balanced(x, y),
    ensures
        balanced(product(x, k), product(y, k)),
{
    if x.is_nan() || y.is_nan() {
        reveal(product);
    } else if x == y.negation() {
        lemma_product_of_negation(y, k);
    } else {
        reveal(product);
        assert(x.is_zero() && y.is_zero());
    }
}

/// The order of the factors does not matter.
pub proof fn lemma_product_commutes(a: Scalar, b: Scalar)
    ensures
        product(a, b) == product(b, a),
{
    reveal(product);
    assert(a.significand() * b.significand() == b.significand() * a.significand())
        by (nonlinear_arith);
}

} // verus!
