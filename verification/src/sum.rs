//! Addition and subtraction of binary64 values.

use crate::rounding::{
    lemma_round_compress, lemma_round_exact, lemma_round_pack_monotone, lemma_round_pack_sign,
    round_pack, round_to_bits, scale_up,
};
use crate::scalar::{balanced, lemma_pack_of_decoded, Scalar};
use vstd::arithmetic::div_mod::lemma_fundamental_div_mod_converse;
use vstd::arithmetic::power2::{
    lemma2_to64, lemma2_to64_rest, lemma_pow2_adds, lemma_pow2_pos, lemma_pow2_strictly_increases,
    pow2,
};
use vstd::prelude::*;

verus! {

/// The significand with the sign of the value.
pub open spec fn signed_significand(a: Scalar) -> int {
    if a.is_negative() {
        -(a.significand() as int)
    } else {
        a.significand() as int
    }
}

/// The exact sum of two finite values, in units of `2^e` where `e` is the smaller
/// of the two exponents.
pub open spec fn exact_total(a: Scalar, b: Scalar) -> int {
    let e = if a.exponent() <= b.exponent() {
        a.exponent()
    } else {
        b.exponent()
    };
    signed_significand(a) * pow2((a.exponent() - e) as nat) + signed_significand(b) * pow2(
        (b.exponent() - e) as nat,
    )
}

/// The sum of two finite nonzero values: the exact total, rounded once. Exact
/// cancellation gives `+0`.
pub open spec fn finite_sum(a: Scalar, b: Scalar) -> Scalar {
    let e = if a.exponent() <= b.exponent() {
        a.exponent()
    } else {
        b.exponent()
    };
    let total = exact_total(a, b);
    if total == 0 {
        Scalar::signed_zero(false)
    } else if total < 0 {
        Scalar { bits: round_pack(true, (-total) as nat, e, false) }
    } else {
        Scalar { bits: round_pack(false, total as nat, e, false) }
    }
}

/// The sum of two binary64 values, correctly rounded.
#[verifier::opaque]
pub open spec fn sum(a: Scalar, b: Scalar) -> Scalar {
    if a.is_nan() || b.is_nan() {
        Scalar::nan()
    } else if a.is_infinite() {
        if b.is_infinite() && a.is_negative() != b.is_negative() {
            Scalar::nan()
        } else {
            a
        }
    } else if b.is_infinite() {
        b
    } else if a.is_zero() && b.is_zero() {
        Scalar::signed_zero(a.is_negative() && b.is_negative())
    } else if a.is_zero() {
        b
    } else if b.is_zero() {
        a
    } else {
        finite_sum(a, b)
    }
}

/// `a - b` is `a + (-b)`.
pub open spec fn difference(a: Scalar, b: Scalar) -> Scalar {
    sum(a, b.negation())
}

/// The order of the terms does not matter.
pub proof fn lemma_sum_commutes(a: Scalar, b: Scalar)
    ensures
        sum(a, b) == sum(b, a),
{
    reveal(sum);
}

/// Adding zero changes no number; it only turns `-0` into `+0`.
pub proof fn lemma_sum_with_zero(v: Scalar)
    ensures
        v.is_nan() ==> sum(v, Scalar::signed_zero(false)).is_nan(),
        !v.is_nan() ==> sum(v, Scalar::signed_zero(false)).same_number(v),
        sum(Scalar::signed_zero(false), Scalar::signed_zero(false)) == Scalar::signed_zero(false),
        sum(sum(v, Scalar::signed_zero(false)), Scalar::signed_zero(false)) == sum(
            v,
            Scalar::signed_zero(false),
        ),
{
    reveal(sum);
}

/// The exact total of the opposite values is the opposite total.
pub proof fn lemma_exact_total_of_negations(a: Scalar, b: Scalar)
    ensures
        exact_total(a.negation(), b.negation()) == -exact_total(a, b),
{
    let c = a.negation();
    let d = b.negation();
    assert(c.magnitude() == a.magnitude());
    assert(d.magnitude() == b.magnitude());
    assert(signed_significand(c) == -signed_significand(a));
    assert(signed_significand(d) == -signed_significand(b));
    let e = if a.exponent() <= b.exponent() {
        a.exponent()
    } else {
        b.exponent()
    };
    let wa = pow2((a.exponent() - e) as nat);
    let wb = pow2((b.exponent() - e) as nat);
    let sa = signed_significand(a);
    let sb = signed_significand(b);
    assert((-sa) * wa + (-sb) * wb == -(sa * wa + sb * wb)) by (nonlinear_arith);
}

/// A rounded magnitude with the one sign balances the same with the other.
proof fn lemma_round_pack_balances(sig: nat, exp: int)
    ensures
        balanced(
            Scalar { bits: round_pack(true, sig, exp, false) },
            Scalar { bits: round_pack(false, sig, exp, false) },
        ),
        balanced(
            Scalar { bits: round_pack(false, sig, exp, false) },
            Scalar { bits: round_pack(true, sig, exp, false) },
        ),
{
    lemma_round_pack_sign(sig, exp, false);
}

/// The sum of the opposite finite values is the opposite sum, as a number.
pub proof fn lemma_finite_sum_of_negations(a: Scalar, b: Scalar)
    ensures
        balanced(finite_sum(a.negation(), b.negation()), finite_sum(a, b)),
{
    let c = a.negation();
    let d = b.negation();
    assert(c.exponent() == a.exponent()) by {
        assert(c.magnitude() == a.magnitude());
    }
    assert(d.exponent() == b.exponent()) by {
        assert(d.magnitude() == b.magnitude());
    }
    let e = if a.exponent() <= b.exponent() {
        a.exponent()
    } else {
        b.exponent()
    };
    let total = exact_total(a, b);
    lemma_exact_total_of_negations(a, b);
    assert(exact_total(c, d) == -total);
    if total > 0 {
        lemma_round_pack_balances(total as nat, e);
    } else if total < 0 {
        lemma_round_pack_balances((-total) as nat, e);
    }
}

/// The sum of the opposite values is the opposite sum, as a number; where there
/// is no sum, there is none for the opposite values either.
pub proof fn lemma_sum_of_negations(a: Scalar, b: Scalar)
    ensures
        balanced(sum(a.negation(), b.negation()), sum(a, b)),
{
    reveal(sum);
    let c = a.negation();
    let d = b.negation();
    assert(c.magnitude() == a.magnitude());
    assert(d.magnitude() == b.magnitude());
    lemma_finite_sum_of_negations(a, b);
}

/// A zero added to a value gives that value, as a number, on either side.
pub proof fn lemma_sum_with_any_zero(z: Scalar, v: Scalar)
    requires
        z.is_zero(),
    ensures
        v.is_nan() ==> sum(z, v).is_nan() && sum(v, z).is_nan(),
        !v.is_nan() ==> sum(z, v).same_number(v) && sum(v, z).same_number(v),
{
    reveal(sum);
}

/// Where a term is no number, the sum is none.
pub proof fn lemma_sum_of_nan(a: Scalar, b: Scalar)
    requires
        a.is_nan() || b.is_nan(),
    ensures
        sum(a, b).is_nan(),
{
    reveal(sum);
}

/// What balances a number balances every pattern of the same number.
pub proof fn lemma_balanced_same_number(a: Scalar, c: Scalar, b: Scalar, d: Scalar)
    requires
        a.same_number(c),
        b.same_number(d),
        balanced(c, d),
    ensures
        balanced(a, b),
{
}

/// Balanced values stay balanced when a balanced pair is added to them.
pub proof fn lemma_balanced_sum(x1: Scalar, y1: Scalar, x2: Scalar, y2: Scalar)
    requires
        balanced(x1, y1),
        balanced(x2, y2),
    ensures
        balanced(sum(x1, x2), sum(y1, y2)),
{
    if x1.is_nan() || x2.is_nan() {
        lemma_sum_of_nan(x1, x2);
        lemma_sum_of_nan(y1, y2);
    } else if x1 == y1.negation() && x2 == y2.negation() {
        lemma_sum_of_negations(y1, y2);
    } else if x1 != y1.negation() {
        // Two zeros of any signs: the sums are the second terms.
        lemma_sum_with_any_zero(x1, x2);
        lemma_sum_with_any_zero(y1, y2);
        lemma_balanced_same_number(sum(x1, x2), x2, sum(y1, y2), y2);
    } else {
        lemma_sum_with_any_zero(x2, x1);
        lemma_sum_with_any_zero(y2, y1);
        lemma_balanced_same_number(sum(x1, x2), x1, sum(y1, y2), y1);
    }
}

/// Zero plus a value is that value, but for the sign of a zero.
pub proof fn lemma_zero_plus(v: Scalar)
    ensures
        v.is_nan() ==> sum(Scalar::signed_zero(false), v).is_nan(),
        !v.is_nan() ==> sum(Scalar::signed_zero(false), v).same_number(v),
{
    reveal(sum);
}

/// Adding a positive finite value never gives less: the sum is a number, and it
/// is not below the first term. (It may be equal to it, where the second term is
/// too small to show.)
pub proof fn lemma_sum_not_below(t: Scalar, d: Scalar)
    requires
        !t.is_nan(),
        d.is_positive(),
        d.is_finite(),
    ensures
        !sum(t, d).is_nan(),
        !sum(t, d).less_than(t),
{
    reveal(sum);
    lemma2_to64();
    lemma2_to64_rest();
    if t.is_finite() && !t.is_zero() {
        lemma_pack_of_decoded(t);
        lemma_pack_of_decoded(d);
        let e = if t.exponent() <= d.exponent() {
            t.exponent()
        } else {
            d.exponent()
        };
        let jt = (t.exponent() - e) as nat;
        let jd = (d.exponent() - e) as nat;
        let mt = t.significand();
        let md = d.significand();
        let big = mt * pow2(jt);
        let step = md * pow2(jd);
        lemma_pow2_pos(jt);
        lemma_pow2_pos(jd);
        assert(big > 0 && step > 0) by (nonlinear_arith)
            requires
                big == mt * pow2(jt),
                step == md * pow2(jd),
                mt > 0,
                md > 0,
                pow2(jt) > 0,
                pow2(jd) > 0,
        ;
        assert((-(mt as int)) * pow2(jt) == -(big as int)) by (nonlinear_arith)
            requires
                big == mt * pow2(jt),
        ;
        let total = exact_total(t, d);
        // The first term alone rounds to itself.
        lemma_round_exact(false, mt, t.exponent(), jt);
        assert(round_pack(false, big, e, false) == t.magnitude());
        if !t.is_negative() {
            assert(total == big + step);
            lemma_round_pack_monotone(big, (big + step) as nat, e);
            lemma_round_pack_sign((big + step) as nat, e, false);
        } else {
            assert(total == step - big);
            if total < 0 {
                lemma_round_pack_monotone((big - step) as nat, big, e);
                lemma_round_pack_sign((big - step) as nat, e, false);
            } else if total > 0 {
                lemma_round_pack_sign((step - big) as nat, e, false);
            }
        }
    }
}

impl Scalar {
    /// `self + rhs`, rounded to nearest, ties to even.
    pub fn add(self, rhs: Scalar) -> (r: Scalar)
        ensures
            r == sum(self, rhs),
    {
        proof {
            reveal(sum);
        }
        if self.nan_check() || rhs.nan_check() {
            return Scalar::make_nan();
        }
        if self.infinite_check() {
            if rhs.infinite_check() && self.sign_negative() != rhs.sign_negative() {
                return Scalar::make_nan();
            }
            return self;
        }
        if rhs.infinite_check() {
            return rhs;
        }
        if self.zero_check() && rhs.zero_check() {
            return Scalar::make_zero(self.sign_negative() && rhs.sign_negative());
        }
        if self.zero_check() {
            return rhs;
        }
        if rhs.zero_check() {
            return self;
        }
        if self.exp() < rhs.exp() {
            proof {
                lemma_sum_commutes(self, rhs);
            }
            add_ordered(rhs, self)
        } else {
            add_ordered(self, rhs)
        }
    }

    /// `self - rhs`, rounded to nearest, ties to even.
    pub fn sub(self, rhs: Scalar) -> (r: Scalar)
        ensures
            r == difference(self, rhs),
    {
        self.add(rhs.neg())
    }
}

/// Adds two finite nonzero values of which the first has the larger exponent.
fn add_ordered(hi: Scalar, lo: Scalar) -> (r: Scalar)
    requires
        hi.is_finite(),
        lo.is_finite(),
        !hi.is_zero(),
        !lo.is_zero(),
        hi.exponent() >= lo.exponent(),
    ensures
        r == finite_sum(hi, lo),
{
    let mh: u64 = hi.sig();
    let ml: u64 = lo.sig();
    let eh: i64 = hi.exp();
    let el: i64 = lo.exp();
    let d: i64 = eh - el;
    let hn: bool = hi.sign_negative();
    let ln: bool = lo.sign_negative();
    let ghost big: int = mh * pow2(d as nat);
    proof {
        lemma2_to64();
        lemma2_to64_rest();
        let w = pow2(d as nat);
        assert((-(mh as int)) * w == -(mh * w)) by (nonlinear_arith);
        assert(signed_significand(lo) * pow2(0) == signed_significand(lo));
        assert(exact_total(hi, lo) == (if hn {
            -big
        } else {
            big
        }) + signed_significand(lo));
    }
    if d <= 62 {
        let scaled: u128 = scale_up(mh as u128, d as u64);
        let small: u128 = ml as u128;
        if hn == ln {
            Scalar { bits: round_to_bits(hn, scaled + small, el, false) }
        } else if scaled > small {
            Scalar { bits: round_to_bits(hn, scaled - small, el, false) }
        } else if scaled < small {
            Scalar { bits: round_to_bits(ln, small - scaled, el, false) }
        } else {
            Scalar::make_zero(false)
        }
    } else {
        // The smaller term lies wholly below the rounding position of the larger:
        // it only decides which way an inexact result leans.
        let base: u128 = (mh as u128) * 8;
        let sig: u128 = if hn == ln {
            base
        } else {
            (base - 1) as u128
        };
        proof {
            let j = (d - 3) as nat;
            let w = pow2(j);
            lemma_pow2_adds(3, j);
            lemma_pow2_strictly_increases(53, j);
            assert(pow2(d as nat) == 8 * w);
            assert(mh * (8 * w) == (mh * 8) * w) by (nonlinear_arith);
            assert(big == base * w);
            assert(base * w >= 0x80_0000_0000_0000 * w >= 0x80_0000_0000_0000 * 0x20_0000_0000_0000)
                by (nonlinear_arith)
                requires
                    base >= 0x80_0000_0000_0000,
                    w >= 0x20_0000_0000_0000,
            ;
            let total: nat = if hn == ln {
                (big + ml) as nat
            } else {
                (big - ml) as nat
            };
            assert(exact_total(hi, lo) == if hn {
                -(total as int)
            } else {
                total as int
            });
            if hn == ln {
                lemma_fundamental_div_mod_converse(total as int, w as int, base as int, ml as int);
            } else {
                assert(total == (base - 1) * w + (w - ml)) by (nonlinear_arith)
                    requires
                        total == base * w - ml,
                ;
                lemma_fundamental_div_mod_converse(
                    total as int,
                    w as int,
                    (base - 1) as int,
                    (w - ml) as int,
                );
            }
            assert(total / w == sig);
            assert(total % w != 0);
            lemma_round_compress(hn, total, el as int, false, j);
        }
        Scalar { bits: round_to_bits(hn, sig, eh - 3, true) }
    }
}

} // verus!
