//! Square root of binary64 values.

use crate::quotient::{normal_shift, normalize};
use crate::rounding::{round_pack, round_to_bits};
use crate::scalar::Scalar;
use vstd::arithmetic::power2::{lemma2_to64, lemma2_to64_rest, lemma_pow2_adds, pow2};
use vstd::prelude::*;

verus! {

/// Whether `s` is the integer part of the square root of `x`.
pub open spec fn is_integer_root(s: nat, x: nat) -> bool {
    s * s <= x < (s + 1) * (s + 1)
}

/// The integer part of the square root of `x`.
pub open spec fn integer_root(x: nat) -> nat {
    choose|s: nat| is_integer_root(s, x)
}

/// There is only one integer root.
pub proof fn lemma_integer_root_unique(s: nat, t: nat, x: nat)
    requires
        is_integer_root(s, x),
        is_integer_root(t, x),
    ensures
        s == t,
{
    if s < t {
        assert((s + 1) * (s + 1) <= t * t) by (nonlinear_arith)
            requires
                s + 1 <= t,
        ;
    }
    if t < s {
        assert((t + 1) * (t + 1) <= s * s) by (nonlinear_arith)
            requires
                t + 1 <= s,
        ;
    }
}

/// The digits that the radicand of a finite positive value gets in front of the
/// integer root: 58 where that leaves an even exponent, else 59.
pub open spec fn root_shift(a: Scalar) -> nat {
    if (a.exponent() - normal_shift(a.significand())) % 2 == 0 {
        58
    } else {
        59
    }
}

/// The square root of a finite positive value, correctly rounded.
///
/// The significand is scaled to 53 digits and then to 111 or 112, so that the
/// exponent left over is even and the integer root has 56 digits: enough for one
/// rounding, with inexactness as the sticky flag.
pub open spec fn finite_root(a: Scalar) -> Scalar {
    let t = normal_shift(a.significand());
    let u = root_shift(a);
    let x = a.significand() * pow2(t + u);
    let s = integer_root(x);
    Scalar { bits: round_pack(false, s, (a.exponent() - t - u) / 2, s * s != x) }
}

/// The square root of a binary64 value, correctly rounded.
#[verifier::opaque]
pub open spec fn square_root(a: Scalar) -> Scalar {
    if a.is_nan() {
        Scalar::nan()
    } else if a.is_zero() {
        a
    } else if a.is_negative() {
        Scalar::nan()
    } else if a.is_infinite() {
        a
    } else {
        finite_root(a)
    }
}

/// Integer part of the square root, one digit at a time from the top.
pub(crate) fn isqrt(x: u128) -> (s: u128)
    requires
        x < 0x1_0000_0000_0000_0000_0000_0000_0000,
    ensures
        is_integer_root(s as nat, x as nat),
        s == integer_root(x as nat),
        s < 0x100_0000_0000_0000,
{
    let mut r: u128 = 0;
    let mut w: u128 = 0x100_0000_0000_0000;
    let mut k: u64 = 56;
    proof {
        lemma2_to64();
        lemma2_to64_rest();
    }
    while w > 1
        invariant
            w == pow2(k as nat),
            k <= 56,
            w >= 1,
            r + w <= 0x100_0000_0000_0000,
            r * r <= x < (r + w) * (r + w),
        decreases w,
    {
        proof {
            if k == 0 {
                lemma2_to64();
            } else {
                vstd::arithmetic::power2::lemma_pow2_unfold(k as nat);
            }
        }
        let b: u128 = w / 2;
        let cand: u128 = r + b;
        assert(cand * cand <= 0x100_0000_0000_0000 * 0x100_0000_0000_0000) by (nonlinear_arith)
            requires
                cand <= 0x100_0000_0000_0000,
        ;
        if cand * cand <= x {
            r = cand;
        }
        w = b;
        k = k - 1;
    }
    proof {
        lemma_integer_root_unique(r as nat, integer_root(x as nat), x as nat);
    }
    r
}

impl Scalar {
    /// The square root of `self`, rounded to nearest, ties to even.
    pub fn sqrt(self) -> (r: Scalar)
        ensures
            r == square_root(self),
    {
        proof {
            reveal(square_root);
        }
        if self.nan_check() {
            return Scalar::make_nan();
        }
        if self.zero_check() {
            return self;
        }
        if self.sign_negative() {
            return Scalar::make_nan();
        }
        if self.infinite_check() {
            return self;
        }
        let (n, t) = normalize(self.sig());
        let e: i64 = self.exp() - t;
        // `e` lies in [-1126, 971]; an offset keeps the parity test unsigned.
        let lifted: u64 = (e + 1200) as u64;
        let even: bool = lifted % 2 == 0;
        let u: i64 = if even {
            58
        } else {
            59
        };
        let x: u128 = if even {
            (n as u128) * 0x400_0000_0000_0000
        } else {
            (n as u128) * 0x800_0000_0000_0000
        };
        let s: u128 = isqrt(x);
        let half: i64 = ((e - u + 1400) as u64 / 2) as i64 - 700;
        proof {
            lemma2_to64();
            lemma2_to64_rest();
            let m = self.significand();
            assert(u == root_shift(self));
            lemma_pow2_adds(t as nat, u as nat);
            assert(m * (pow2(t as nat) * pow2(u as nat)) == (m * pow2(t as nat)) * pow2(u as nat))
                by (nonlinear_arith);
            assert(x == m * pow2((t + u) as nat));
            assert(half == (self.exponent() - t - u) / 2);
            // The root keeps 56 digits.
            let floor: nat = 0x80_0000_0000_0000;
            if s < floor {
                assert((s + 1) * (s + 1) <= floor * floor) by (nonlinear_arith)
                    requires
                        s + 1 <= floor,
                ;
            }
            assert(s >= floor);
        }
        Scalar { bits: round_to_bits(false, s, half, s * s != x) }
    }
}

} // verus!
