//! Division of binary64 values.

use crate::rounding::{
    bit_len, lemma_bit_len_exact, round_pack, round_to_bits, HIDDEN_BIT,
};
use crate::scalar::Scalar;
use vstd::arithmetic::div_mod::{lemma_div_by_multiple, lemma_div_is_ordered};
use vstd::arithmetic::power2::{lemma2_to64, lemma2_to64_rest, lemma_pow2_adds, lemma_pow2_unfold, pow2};
use vstd::prelude::*;

verus! {

/// How far a nonzero significand below `2^53` must be shifted left to get exactly
/// 53 digits.
pub open spec fn normal_shift(m: nat) -> nat {
    (53 - bit_len(m)) as nat
}

/// The quotient of two finite nonzero values, correctly rounded.
///
/// Both significands are first scaled to 53 digits. The numerator then gets 60
/// digits more, so that the integer quotient has 60 or 61 digits: enough for one
/// rounding, with the remainder as the sticky flag.
pub open spec fn finite_quotient(a: Scalar, b: Scalar) -> Scalar {
    let ta = normal_shift(a.significand());
    let tb = normal_shift(b.significand());
    let num = a.significand() * pow2(ta + 60);
    let den = b.significand() * pow2(tb);
    Scalar {
        bits: round_pack(
            a.is_negative() != b.is_negative(),
            num / den,
            (a.exponent() - ta) - (b.exponent() - tb) - 60,
            num % den != 0,
        ),
    }
}

/// The quotient of two binary64 values, correctly rounded.
#[verifier::opaque]
pub open spec fn quotient(a: Scalar, b: Scalar) -> Scalar {
    let negative = a.is_negative() != b.is_negative();
    if a.is_nan() || b.is_nan() {
        Scalar::nan()
    } else if a.is_infinite() {
        if b.is_infinite() {
            Scalar::nan()
        } else {
            Scalar::signed_infinity(negative)
        }
    } else if b.is_infinite() {
        Scalar::signed_zero(negative)
    } else if b.is_zero() {
        if a.is_zero() {
            Scalar::nan()
        } else {
            Scalar::signed_infinity(negative)
        }
    } else if a.is_zero() {
        Scalar::signed_zero(negative)
    } else {
        finite_quotient(a, b)
    }
}

/// Dividing the opposite finite value gives the opposite quotient.
pub proof fn lemma_finite_quotient_of_negation(a: Scalar, b: Scalar)
    ensures
        !finite_quotient(a, b).is_nan(),
        finite_quotient(a.negation(), b) == finite_quotient(a, b).negation(),
{
    let c = a.negation();
    assert(c.magnitude() == a.magnitude());
    assert(c.is_negative() != a.is_negative());
    assert(c.significand() == a.significand());
    assert(c.exponent() == a.exponent());
    let ta = normal_shift(a.significand());
    let tb = normal_shift(b.significand());
    let num = a.significand() * pow2(ta + 60);
    let den = b.significand() * pow2(tb);
    let sig = num / den;
    let exp = (a.exponent() - ta) - (b.exponent() - tb) - 60;
    let sticky = num % den != 0;
    let negative = a.is_negative() != b.is_negative();
    crate::rounding::lemma_round_pack_sign(sig, exp, sticky);
    let plain = round_pack(false, sig, exp, sticky);
    let signed = round_pack(true, sig, exp, sticky);
    assert(finite_quotient(a, b).bits == round_pack(negative, sig, exp, sticky));
    assert(finite_quotient(c, b).bits == round_pack(!negative, sig, exp, sticky));
    assert(plain <= 0x7FF0_0000_0000_0000);
    assert(signed == 0x8000_0000_0000_0000 + plain);
}

/// Dividing the opposite value gives the opposite quotient; where there is no
/// quotient, there is none for the opposite value either.
pub proof fn lemma_quotient_of_negation(a: Scalar, b: Scalar)
    ensures
        quotient(a, b).is_nan() <==> quotient(a.negation(), b).is_nan(),
        !quotient(a, b).is_nan() ==> quotient(a.negation(), b) == quotient(a, b).negation(),
{
    reveal(quotient);
    let c = a.negation();
    assert(c.magnitude() == a.magnitude());
    assert(c.is_negative() != a.is_negative());
    lemma_finite_quotient_of_negation(a, b);
}

/// Dividing a finite value that is not negative by a positive one of at least
/// two gives a finite value that is not negative: nothing overflows.
pub proof fn lemma_quotient_stays_finite(a: Scalar, b: Scalar)
    requires
        a.is_finite(),
        !a.is_negative(),
        b.is_finite(),
        !b.is_negative(),
        b.exponent() >= -51,
    ensures
        quotient(a, b).is_finite(),
        !quotient(a, b).is_negative(),
{
    reveal(quotient);
    lemma2_to64();
    lemma2_to64_rest();
    if !a.is_zero() {
        let ma = a.significand();
        let mb = b.significand();
        let ta = normal_shift(ma);
        let tb = normal_shift(mb);
        lemma_bit_len_exact(mb, 53);
        assert(tb == 0);
        let num = ma * pow2(ta + 60);
        let den = mb * pow2(tb);
        assert(den == mb) by {
            assert(mb * 1 == mb);
        }
        let sig = num / den;
        let exp = (a.exponent() - ta) - (b.exponent() - tb) - 60;
        // The scaled numerator has at most 113 digits, the quotient at most 61.
        crate::rounding::lemma_below_pow2_of_bit_len(ma);
        crate::rounding::lemma_bit_len_upper(ma, 53);
        lemma_pow2_adds(bit_len(ma), ta);
        lemma_pow2_adds(ta, 60);
        assert(ma * (pow2(ta) * pow2(60)) == (ma * pow2(ta)) * pow2(60)) by (nonlinear_arith);
        assert(ma * pow2(ta) < pow2(bit_len(ma)) * pow2(ta)) by (nonlinear_arith)
            requires
                ma < pow2(bit_len(ma)),
                pow2(ta) > 0,
        ;
        assert(num < 0x20_0000_0000_0000 * 0x1000_0000_0000_0000);
        vstd::arithmetic::div_mod::lemma_div_is_ordered_by_denominator(
            num as int,
            0x10_0000_0000_0000,
            den as int,
        );
        assert(sig < 0x2000_0000_0000_0000);
        crate::rounding::lemma_bit_len_upper(sig, 61);
        assert(crate::rounding::quantum(sig, exp) <= 970);
        crate::rounding::lemma_round_pack_finite(sig, exp, num % den != 0);
        crate::rounding::lemma_round_pack_sign(sig, exp, num % den != 0);
    }
}

/// Scales a nonzero significand to 53 digits; returns it with the shift applied.
pub(crate) fn normalize(m: u64) -> (r: (u64, i64))
    requires
        0 < m < 2 * HIDDEN_BIT,
    ensures
        r.1 == normal_shift(m as nat),
        r.0 == m * pow2(r.1 as nat),
        HIDDEN_BIT <= r.0 < 2 * HIDDEN_BIT,
        0 <= r.1 <= 52,
{
    let mut n: u64 = m;
    let mut t: i64 = 0;
    proof {
        lemma2_to64();
        lemma2_to64_rest();
        assert(m * pow2(0) == m);
        crate::rounding::lemma_bit_len_lower(m as nat, 0);
        crate::rounding::lemma_bit_len_upper(m as nat, 53);
    }
    while n < HIDDEN_BIT
        invariant
            0 < n < 2 * HIDDEN_BIT,
            0 <= t,
            n == m * pow2(t as nat),
            bit_len(n as nat) == bit_len(m as nat) + t,
            bit_len(m as nat) >= 1,
            bit_len(n as nat) <= 53,
            pow2(52) == HIDDEN_BIT,
            pow2(53) == 2 * HIDDEN_BIT,
        decreases 2 * HIDDEN_BIT - n,
    {
        proof {
            lemma_pow2_unfold((t + 1) as nat);
            let w = pow2(t as nat);
            assert(m * (2 * w) == 2 * (m * w)) by (nonlinear_arith);
            assert((2 * n) / 2 == n);
            assert(bit_len((2 * n) as nat) == 1 + bit_len(n as nat));
            crate::rounding::lemma_bit_len_upper((2 * n) as nat, 53);
        }
        n = n * 2;
        t = t + 1;
    }
    proof {
        lemma_bit_len_exact(n as nat, 53);
    }
    (n, t)
}

impl Scalar {
    /// `self / rhs`, rounded to nearest, ties to even.
    pub fn div(self, rhs: Scalar) -> (r: Scalar)
        ensures
            r == quotient(self, rhs),
    {
        proof {
            reveal(quotient);
        }
        let negative: bool = self.sign_negative() != rhs.sign_negative();
        if self.nan_check() || rhs.nan_check() {
            return Scalar::make_nan();
        }
        if self.infinite_check() {
            if rhs.infinite_check() {
                return Scalar::make_nan();
            }
            return Scalar::make_infinity(negative);
        }
        if rhs.infinite_check() {
            return Scalar::make_zero(negative);
        }
        if rhs.zero_check() {
            if self.zero_check() {
                return Scalar::make_nan();
            }
            return Scalar::make_infinity(negative);
        }
        if self.zero_check() {
            return Scalar::make_zero(negative);
        }
        let (na, ta) = normalize(self.sig());
        let (nb, tb) = normalize(rhs.sig());
        let num: u128 = (na as u128) * 0x1000_0000_0000_0000;
        let den: u128 = nb as u128;
        let q: u128 = num / den;
        let rem: u128 = num % den;
        let exp: i64 = (self.exp() - ta) - (rhs.exp() - tb) - 60;
        proof {
            lemma2_to64();
            lemma2_to64_rest();
            let ma = self.significand();
            lemma_pow2_adds(ta as nat, 60);
            assert(ma * (pow2(ta as nat) * pow2(60)) == (ma * pow2(ta as nat)) * pow2(60))
                by (nonlinear_arith);
            assert(num == ma * pow2((ta + 60) as nat));
            // The quotient keeps at least 60 digits.
            let floor: int = 0x800_0000_0000_0000;
            assert(floor * den <= num) by (nonlinear_arith)
                requires
                    floor == 0x800_0000_0000_0000,
                    den < 0x20_0000_0000_0000,
                    num >= 0x10_0000_0000_0000 * 0x1000_0000_0000_0000,
            ;
            lemma_div_is_ordered(floor * den, num as int, den as int);
            lemma_div_by_multiple(floor, den as int);
            assert(q >= floor);
        }
        Scalar { bits: round_to_bits(negative, q, exp, rem != 0) }
    }
}

} // verus!
