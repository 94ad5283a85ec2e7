//! Rounding of an exact binary magnitude to the nearest binary64 value, ties to even.
//!
//! A magnitude is given as `sig * 2^exp`, possibly followed by a nonzero tail of
//! weight below `2^exp` (the *sticky* flag). The result is the bit pattern of the
//! representable value closest to it.

use vstd::arithmetic::div_mod::{lemma_div_denominator, lemma_mod_breakdown};
use vstd::arithmetic::power2::{
    lemma2_to64, lemma2_to64_rest, lemma_pow2_adds, lemma_pow2_pos, lemma_pow2_unfold, pow2,
};
use vstd::prelude::*;

verus! {

/// Bit pattern of the sign alone.
pub const SIGN_BIT: u64 = 0x8000_0000_0000_0000;

/// Bit pattern of positive infinity; every larger magnitude is a NaN.
pub const INFINITY_BITS: u64 = 0x7FF0_0000_0000_0000;

/// Weight of the implicit leading bit of a normal significand, `2^52`.
pub const HIDDEN_BIT: u64 = 0x0010_0000_0000_0000;

/// Exponent of the least significant bit of a subnormal value.
pub const MIN_EXPONENT: i64 = -1074;

/// Number of binary digits of `n`; zero has none.
pub open spec fn bit_len(n: nat) -> nat
    decreases n,
{
    if n == 0 {
        0
    } else {
        1 + bit_len(n / 2)
    }
}

/// Exponent of the last place that survives when `sig * 2^exp` is cut to 53 digits,
/// bounded below by the subnormal exponent.
pub open spec fn quantum(sig: nat, exp: int) -> int {
    let top = exp + bit_len(sig) - 53;
    if top >= MIN_EXPONENT {
        top
    } else {
        MIN_EXPONENT as int
    }
}

/// `sig / 2^k` rounded to the nearest integer; a tie goes to the even neighbour
/// unless a sticky tail lifts the value above the midpoint.
pub open spec fn round_half_even(sig: nat, k: nat, sticky: bool) -> nat
    recommends
        k >= 1,
{
    let q = sig / pow2(k);
    let r = sig % pow2(k);
    let half = pow2((k - 1) as nat);
    if r > half || (r == half && (sticky || q % 2 == 1)) {
        q + 1
    } else {
        q
    }
}

/// The significand of the rounded value, in units of `2^quantum(sig, exp)`.
pub open spec fn rounded_significand(sig: nat, exp: int, sticky: bool) -> nat {
    let qe = quantum(sig, exp);
    if qe <= exp {
        sig * pow2((exp - qe) as nat)
    } else {
        round_half_even(sig, (qe - exp) as nat, sticky)
    }
}

/// Bit pattern of `m * 2^qe` with the given sign, for `m <= 2^53` and `qe >= -1074`.
/// A value beyond the largest finite one becomes infinity.
pub open spec fn pack(negative: bool, m: nat, qe: int) -> u64 {
    let magnitude = (qe - MIN_EXPONENT) * HIDDEN_BIT + m;
    let clamped = if magnitude >= INFINITY_BITS {
        INFINITY_BITS as int
    } else {
        magnitude
    };
    if negative {
        (SIGN_BIT + clamped) as u64
    } else {
        clamped as u64
    }
}

/// Bit pattern of the binary64 value nearest to `sig * 2^exp` (plus a sticky tail),
/// ties to even.
#[verifier::opaque]
pub open spec fn round_pack(negative: bool, sig: nat, exp: int, sticky: bool) -> u64 {
    pack(negative, rounded_significand(sig, exp, sticky), quantum(sig, exp))
}

/// The sign of a rounded value is the sign that was asked for, and its magnitude
/// does not depend on it. The result is never a NaN.
pub proof fn lemma_round_pack_sign(sig: nat, exp: int, sticky: bool)
    ensures
        round_pack(false, sig, exp, sticky) <= INFINITY_BITS,
        round_pack(true, sig, exp, sticky) == SIGN_BIT + round_pack(false, sig, exp, sticky),
{
    reveal(round_pack);
    let qe = quantum(sig, exp);
    let m = rounded_significand(sig, exp, sticky);
    assert(qe >= MIN_EXPONENT);
    assert((qe - MIN_EXPONENT) * HIDDEN_BIT + m >= 0) by (nonlinear_arith)
        requires
            qe - MIN_EXPONENT >= 0,
            m >= 0,
            HIDDEN_BIT > 0,
    ;
}

/// A number below `2^k` has at most `k` digits.
pub proof fn lemma_bit_len_upper(n: nat, k: nat)
    requires
        n < pow2(k),
    ensures
        bit_len(n) <= k,
    decreases k,
{
    if n > 0 {
        if k == 0 {
            lemma2_to64();
        } else {
            lemma_pow2_unfold(k);
            lemma_bit_len_upper(n / 2, (k - 1) as nat);
        }
    }
}

/// A number of at least `2^k` has more than `k` digits.
pub proof fn lemma_bit_len_lower(n: nat, k: nat)
    requires
        n >= pow2(k),
    ensures
        bit_len(n) >= k + 1,
    decreases k,
{
    lemma_pow2_pos(k);
    if k > 0 {
        lemma_pow2_unfold(k);
        lemma_bit_len_lower(n / 2, (k - 1) as nat);
    }
}

/// Dropping the last digit of the significand into the sticky flag does not change
/// the rounded value, as long as the dropped digit lies below the rounding position.
pub proof fn lemma_round_shift_down(negative: bool, sig: nat, exp: int, sticky: bool)
    requires
        sig > 0,
        sig >= pow2(55) || exp <= MIN_EXPONENT - 3,
    ensures
        round_pack(negative, sig, exp, sticky) == round_pack(
            negative,
            sig / 2,
            exp + 1,
            sticky || sig % 2 == 1,
        ),
{
    reveal(round_pack);
    let qe = quantum(sig, exp);
    assert(bit_len(sig) == 1 + bit_len(sig / 2));
    assert(quantum(sig / 2, exp + 1) == qe);
    if sig >= pow2(55) {
        lemma_bit_len_lower(sig, 55);
    }
    assert(qe - exp >= 3);
    let k = (qe - exp) as nat;
    let p = pow2((k - 1) as nat);
    let h = pow2((k - 2) as nat);
    lemma_pow2_unfold(k);
    lemma_pow2_unfold((k - 1) as nat);
    lemma_pow2_pos((k - 2) as nat);
    assert(pow2(k) == 2 * p);
    assert(p == 2 * h);
    lemma_div_denominator(sig as int, 2, p as int);
    lemma_mod_breakdown(sig as int, 2, p as int);
    assert(sig / pow2(k) == (sig / 2) / p);
    assert(sig % pow2(k) == 2 * ((sig / 2) % p) + sig % 2);
}

/// Doubling an exactly known significand while lowering the exponent does not
/// change the rounded value.
pub proof fn lemma_round_shift_up(negative: bool, sig: nat, exp: int)
    requires
        0 < sig < pow2(52),
        exp > MIN_EXPONENT,
    ensures
        round_pack(negative, sig, exp, false) == round_pack(negative, 2 * sig, exp - 1, false),
{
    reveal(round_pack);
    let qe = quantum(sig, exp);
    assert((2 * sig) / 2 == sig);
    assert(bit_len(2 * sig) == 1 + bit_len(sig));
    lemma_bit_len_upper(sig, 52);
    assert(quantum(2 * sig, exp - 1) == qe);
    assert(qe <= exp - 1);
    let d = (exp - qe) as nat;
    lemma_pow2_unfold(d);
    let x = pow2((d - 1) as nat);
    assert(sig * (2 * x) == (2 * sig) * x) by (nonlinear_arith);
}

/// A number lies below the power of two that its digit count names.
pub proof fn lemma_below_pow2_of_bit_len(n: nat)
    ensures
        n < pow2(bit_len(n)),
    decreases n,
{
    if n == 0 {
        lemma_pow2_pos(0);
    } else {
        lemma_below_pow2_of_bit_len(n / 2);
        lemma_pow2_unfold(bit_len(n));
    }
}

/// Rounding leaves at most 53 digits, or the next power of two.
pub proof fn lemma_rounded_significand_bound(sig: nat, exp: int, sticky: bool)
    ensures
        rounded_significand(sig, exp, sticky) <= pow2(53),
{
    let qe = quantum(sig, exp);
    let len = bit_len(sig);
    lemma_below_pow2_of_bit_len(sig);
    if qe <= exp {
        let up = (exp - qe) as nat;
        lemma_pow2_adds(len, up);
        lemma_pow2_pos(up);
        assert(sig * pow2(up) <= pow2(len) * pow2(up)) by (nonlinear_arith)
            requires
                sig <= pow2(len),
        ;
        if len + up < 53 {
            vstd::arithmetic::power2::lemma_pow2_strictly_increases(len + up, 53);
        }
    } else {
        let k = (qe - exp) as nat;
        lemma_pow2_adds(k, 53);
        lemma_pow2_pos(k);
        if len < k + 53 {
            vstd::arithmetic::power2::lemma_pow2_strictly_increases(len, k + 53);
        }
        assert(sig < pow2(k) * pow2(53));
        vstd::arithmetic::div_mod::lemma_multiply_divide_lt(
            sig as int,
            pow2(k) as int,
            pow2(53) as int,
        );
    }
}

/// A value whose last place is low enough does not overflow to infinity.
pub proof fn lemma_round_pack_finite(sig: nat, exp: int, sticky: bool)
    requires
        quantum(sig, exp) <= 970,
    ensures
        round_pack(false, sig, exp, sticky) < INFINITY_BITS,
{
    reveal(round_pack);
    lemma_rounded_significand_bound(sig, exp, sticky);
    lemma2_to64_rest();
    let qe = quantum(sig, exp);
    let m = rounded_significand(sig, exp, sticky);
    assert(0 <= (qe - MIN_EXPONENT) * HIDDEN_BIT <= 2044 * HIDDEN_BIT) by (nonlinear_arith)
        requires
            0 <= qe - MIN_EXPONENT <= 2044,
            HIDDEN_BIT > 0,
    ;
}

/// A positive number reaches the power of two below which it has fewer digits.
pub proof fn lemma_at_least_pow2_of_bit_len(n: nat)
    requires
        n > 0,
    ensures
        n >= pow2((bit_len(n) - 1) as nat),
    decreases n,
{
    if n == 1 {
        assert(bit_len(1) == 1 + bit_len(0));
        lemma2_to64();
    } else {
        lemma_at_least_pow2_of_bit_len(n / 2);
        lemma_pow2_unfold((bit_len(n) - 1) as nat);
    }
}

/// A larger number has no fewer digits.
pub proof fn lemma_bit_len_monotone(a: nat, b: nat)
    requires
        a <= b,
    ensures
        bit_len(a) <= bit_len(b),
    decreases b,
{
    if a > 0 {
        lemma_bit_len_monotone(a / 2, b / 2);
    }
}

/// Appending `j` zero digits to a positive number adds `j` digits.
pub proof fn lemma_bit_len_of_shifted(m: nat, j: nat)
    requires
        m > 0,
    ensures
        bit_len(m * pow2(j)) == bit_len(m) + j,
        m * pow2(j) > 0,
    decreases j,
{
    lemma_pow2_pos(j);
    if j == 0 {
        lemma2_to64();
        assert(m * pow2(0) == m);
    } else {
        lemma_pow2_unfold(j);
        let w = pow2((j - 1) as nat);
        assert(m * (2 * w) == 2 * (m * w)) by (nonlinear_arith);
        assert(m * w > 0) by (nonlinear_arith)
            requires
                m > 0,
                w > 0,
        ;
        lemma_bit_len_of_shifted(m, (j - 1) as nat);
        assert((2 * (m * w)) / 2 == m * w);
    }
}

/// A value that binary64 holds exactly rounds to itself: `m * 2^e`, written with
/// `j` more digits, gives the pattern of `m` and `e`.
pub proof fn lemma_round_exact(negative: bool, m: nat, e: int, j: nat)
    requires
        0 < m < pow2(53),
        e >= MIN_EXPONENT,
        m >= pow2(52) || e == MIN_EXPONENT,
    ensures
        round_pack(negative, m * pow2(j), e - j, false) == pack(negative, m, e),
{
    reveal(round_pack);
    let sig = m * pow2(j);
    lemma_bit_len_of_shifted(m, j);
    lemma_bit_len_upper(m, 53);
    if m >= pow2(52) {
        lemma_bit_len_exact(m, 53);
    } else {
        lemma_bit_len_upper(m, 52);
    }
    assert(quantum(sig, e - j) == e);
    lemma_pow2_pos(j);
    if j == 0 {
        lemma2_to64();
        let one = pow2(0);
        assert(m * one == m && sig * one == sig) by (nonlinear_arith)
            requires
                one == 1,
        ;
    } else {
        vstd::arithmetic::div_mod::lemma_div_by_multiple(m as int, pow2(j) as int);
        vstd::arithmetic::div_mod::lemma_mod_multiples_basic(m as int, pow2(j) as int);
        lemma_pow2_pos((j - 1) as nat);
        assert(sig / pow2(j) == m);
        assert(sig % pow2(j) == 0);
    }
}

/// A rounded value above the subnormal range has a full significand.
pub proof fn lemma_rounded_significand_full(sig: nat, exp: int, sticky: bool)
    requires
        sig > 0,
        quantum(sig, exp) > MIN_EXPONENT,
    ensures
        rounded_significand(sig, exp, sticky) >= pow2(52),
{
    let len = bit_len(sig);
    let qe = quantum(sig, exp);
    lemma_at_least_pow2_of_bit_len(sig);
    lemma2_to64();
    lemma_bit_len_lower(sig, 0);
    let low = pow2((len - 1) as nat);
    if qe <= exp {
        let up = (exp - qe) as nat;
        lemma_pow2_adds((len - 1) as nat, up);
        assert(sig * pow2(up) >= low * pow2(up)) by (nonlinear_arith)
            requires
                sig >= low,
        ;
    } else {
        let k = (qe - exp) as nat;
        lemma_pow2_adds(52, k);
        lemma_pow2_pos(k);
        assert(low == pow2(52) * pow2(k));
        vstd::arithmetic::div_mod::lemma_div_is_ordered(low as int, sig as int, pow2(k) as int);
        vstd::arithmetic::div_mod::lemma_div_by_multiple(pow2(52) as int, pow2(k) as int);
    }
}

/// Without a sticky tail, the rounded integer is a nearest one: no multiple of
/// `2^k` lies closer to `sig` than the chosen one, and where two lie equally
/// close the even one is chosen.
pub proof fn lemma_round_half_even_nearest(sig: nat, k: nat, n: int)
    requires
        k >= 1,
    ensures
        ({
            let m = round_half_even(sig, k, false);
            let unit = pow2(k) as int;
            let chosen = if m * unit >= sig {
                m * unit - sig
            } else {
                sig - m * unit
            };
            let other = if n * unit >= sig {
                n * unit - sig
            } else {
                sig - n * unit
            };
            &&& chosen <= other
            &&& 2 * chosen <= unit
            &&& 2 * chosen == unit ==> m % 2 == 0
        }),
{
    let unit = pow2(k) as int;
    let half = pow2((k - 1) as nat) as int;
    let q = (sig / pow2(k)) as int;
    let r = (sig % pow2(k)) as int;
    let m = round_half_even(sig, k, false) as int;
    lemma_pow2_unfold(k);
    lemma_pow2_pos((k - 1) as nat);
    vstd::arithmetic::div_mod::lemma_fundamental_div_mod(sig as int, unit);
    assert(sig == unit * q + r);
    assert(0 <= r < unit);
    assert(m * unit == q * unit + (m - q) * unit) by (nonlinear_arith);
    assert(unit * q == q * unit) by (nonlinear_arith);
    if m == q {
        assert((m - q) * unit == 0);
    } else {
        assert((m - q) * unit == unit) by (nonlinear_arith)
            requires
                m - q == 1,
        ;
    }
    if n <= q {
        assert(n * unit <= q * unit) by (nonlinear_arith)
            requires
                n <= q,
                unit > 0,
        ;
    } else {
        assert(n * unit >= q * unit + unit) by (nonlinear_arith)
            requires
                n >= q + 1,
                unit > 0,
        ;
    }
}

/// Rounding to a multiple of `2^k` keeps the order.
pub proof fn lemma_round_half_even_monotone(a: nat, b: nat, k: nat)
    requires
        a <= b,
        k >= 1,
    ensures
        round_half_even(a, k, false) <= round_half_even(b, k, false),
{
    let unit = pow2(k);
    lemma_pow2_pos(k);
    vstd::arithmetic::div_mod::lemma_div_is_ordered(a as int, b as int, unit as int);
    vstd::arithmetic::div_mod::lemma_fundamental_div_mod(a as int, unit as int);
    vstd::arithmetic::div_mod::lemma_fundamental_div_mod(b as int, unit as int);
    if a / unit == b / unit {
        assert(a % unit <= b % unit);
    }
}

/// Rounding keeps the order: a larger magnitude does not round to a smaller
/// value.
pub proof fn lemma_round_pack_monotone(a: nat, b: nat, exp: int)
    requires
        0 < a <= b,
    ensures
        round_pack(false, a, exp, false) <= round_pack(false, b, exp, false),
{
    reveal(round_pack);
    lemma_bit_len_monotone(a, b);
    let qa = quantum(a, exp);
    let qb = quantum(b, exp);
    let ma = rounded_significand(a, exp, false);
    let mb = rounded_significand(b, exp, false);
    lemma_rounded_significand_bound(a, exp, false);
    lemma2_to64_rest();
    if qa < qb {
        lemma_rounded_significand_full(b, exp, false);
        assert((qa - MIN_EXPONENT) * HIDDEN_BIT + ma <= (qb - MIN_EXPONENT) * HIDDEN_BIT + mb)
            by (nonlinear_arith)
            requires
                qa + 1 <= qb,
                ma <= 2 * HIDDEN_BIT,
                mb >= HIDDEN_BIT,
        ;
    } else {
        if qa <= exp {
            let up = (exp - qa) as nat;
            assert(a * pow2(up) <= b * pow2(up)) by (nonlinear_arith)
                requires
                    a <= b,
            ;
        } else {
            lemma_round_half_even_monotone(a, b, (qa - exp) as nat);
        }
    }
}

/// Cutting `j` digits off the significand at once: the general form of
/// [`lemma_round_shift_down`]. What is cut off only matters as a sticky flag, as
/// long as the rest keeps 55 digits.
pub proof fn lemma_round_compress(negative: bool, sig: nat, exp: int, sticky: bool, j: nat)
    requires
        sig / pow2(j) >= pow2(54),
    ensures
        round_pack(negative, sig, exp, sticky) == round_pack(
            negative,
            sig / pow2(j),
            exp + j,
            sticky || sig % pow2(j) != 0,
        ),
    decreases j,
{
    reveal(round_pack);
    lemma2_to64();
    lemma2_to64_rest();
    if j == 0 {
        assert(sig / 1 == sig);
        assert(sig % 1 == 0);
    } else {
        let p = pow2((j - 1) as nat);
        lemma_pow2_unfold(j);
        lemma_pow2_pos((j - 1) as nat);
        lemma_div_denominator(sig as int, 2, p as int);
        lemma_mod_breakdown(sig as int, 2, p as int);
        assert(sig / pow2(j) == (sig / 2) / p);
        assert(sig % pow2(j) == 2 * ((sig / 2) % p) + sig % 2);
        assert(sig / 2 >= pow2(54)) by {
            lemma_div_bound(sig / 2, p);
        }
        lemma_round_shift_down(negative, sig, exp, sticky);
        lemma_round_compress(negative, sig / 2, exp + 1, sticky || sig % 2 == 1, (j - 1) as nat);
    }
}

/// A quotient by a positive number is no larger than the dividend.
proof fn lemma_div_bound(x: nat, d: nat)
    requires
        d > 0,
    ensures
        x / d <= x,
{
    vstd::arithmetic::div_mod::lemma_div_nonincreasing(x as int, d as int);
}

/// A number with exactly `k` digits lies in `[2^(k-1), 2^k)`.
pub proof fn lemma_bit_len_exact(n: nat, k: nat)
    requires
        k >= 1,
        pow2((k - 1) as nat) <= n < pow2(k),
    ensures
        bit_len(n) == k,
{
    lemma_bit_len_upper(n, k);
    lemma_bit_len_lower(n, (k - 1) as nat);
}

/// Nothing at all, so far down that no place of it can be held, rounds to zero.
pub proof fn lemma_round_pack_of_nothing(negative: bool, exp: int, sticky: bool)
    requires
        exp <= MIN_EXPONENT - 2,
    ensures
        round_pack(negative, 0, exp, sticky) == if negative {
            SIGN_BIT
        } else {
            0
        },
{
    reveal(round_pack);
    lemma2_to64();
    assert(quantum(0, exp) == MIN_EXPONENT);
    let k = (MIN_EXPONENT - exp) as nat;
    lemma_pow2_pos(k);
    lemma_pow2_pos((k - 1) as nat);
    assert(0nat / pow2(k) == 0);
    assert(0nat % pow2(k) == 0);
}

/// Rounds a magnitude whose significand has already been brought to at most 55
/// digits, so that at most two of them are cut off.
fn pack_rounded(negative: bool, s: u128, e: i64, st: bool) -> (bits: u64)
    requires
        0 < s < 0x80_0000_0000_0000,
        MIN_EXPONENT - 2 <= e <= 16384,
        s >= 0x10_0000_0000_0000 || e <= MIN_EXPONENT,
    ensures
        bits == round_pack(negative, s as nat, e as int, st),
{
    // What remains to be cut off is at most two digits wide.
    let t: i64 = if s >= 0x40_0000_0000_0000 {
        2
    } else if s >= 0x20_0000_0000_0000 {
        1
    } else {
        0
    };
    let qe: i64 = if e + t >= MIN_EXPONENT {
        e + t
    } else {
        MIN_EXPONENT
    };
    let k: i64 = qe - e;
    proof {
        reveal(round_pack);
        lemma2_to64();
        lemma2_to64_rest();
        if s >= 0x40_0000_0000_0000 {
            lemma_bit_len_exact(s as nat, 55);
        } else if s >= 0x20_0000_0000_0000 {
            lemma_bit_len_exact(s as nat, 54);
        } else if s >= 0x10_0000_0000_0000 {
            lemma_bit_len_exact(s as nat, 53);
        } else {
            lemma_bit_len_upper(s as nat, 52);
        }
        assert(qe == quantum(s as nat, e as int));
        assert(0 <= k <= 2);
    }
    let m: u128 = if k == 0 {
        s
    } else if k == 1 {
        let q: u128 = s / 2;
        let r: u128 = s % 2;
        if r > 1 || (r == 1 && (st || q % 2 == 1)) {
            q + 1
        } else {
            q
        }
    } else {
        let q: u128 = s / 4;
        let r: u128 = s % 4;
        if r > 2 || (r == 2 && (st || q % 2 == 1)) {
            q + 1
        } else {
            q
        }
    };
    assert(m == rounded_significand(s as nat, e as int, st)) by {
        if k == 0 {
            let one = pow2(0);
            assert(s * one == s) by (nonlinear_arith)
                requires
                    one == 1,
            ;
        }
    }
    assert(m <= 0x20_0000_0000_0000);
    let scaled: i64 = qe - MIN_EXPONENT;
    if scaled >= 2047 {
        assert((qe - MIN_EXPONENT) * HIDDEN_BIT + m >= INFINITY_BITS) by (nonlinear_arith)
            requires
                qe - MIN_EXPONENT >= 2047,
                m >= 0,
                HIDDEN_BIT == 0x10_0000_0000_0000,
                INFINITY_BITS == 0x7FF0_0000_0000_0000,
        ;
        return if negative {
            SIGN_BIT + INFINITY_BITS
        } else {
            INFINITY_BITS
        };
    }
    let magnitude: u64 = (scaled as u64) * HIDDEN_BIT + (m as u64);
    let clamped: u64 = if magnitude >= INFINITY_BITS {
        INFINITY_BITS
    } else {
        magnitude
    };
    if negative {
        SIGN_BIT + clamped
    } else {
        clamped
    }
}

/// Rounds `sig * 2^exp`, followed by a nonzero tail when `sticky` is set, to the
/// nearest binary64 value and returns its bit pattern.
///
/// A sticky tail is only meaningful below a significand that already carries the
/// rounding position, hence the demand of 55 digits in that case.
pub(crate) fn round_to_bits(negative: bool, sig: u128, exp: i64, sticky: bool) -> (bits: u64)
    requires
        sig > 0,
        -8192 <= exp <= 8192,
        sticky ==> sig >= 0x40_0000_0000_0000,
    ensures
        bits == round_pack(negative, sig as nat, exp as int, sticky),
{
    let mut s: u128 = sig;
    let mut e: i64 = exp;
    let mut st: bool = sticky;
    proof {
        lemma2_to64();
        lemma2_to64_rest();
        lemma_pow2_adds(64, 64);
        lemma_bit_len_upper(sig as nat, 128);
    }
    while s >= 0x80_0000_0000_0000 || (e <= MIN_EXPONENT - 3 && s > 0)
        invariant
            round_pack(negative, s as nat, e as int, st) == round_pack(
                negative,
                sig as nat,
                exp as int,
                sticky,
            ),
            s > 0 ==> e + bit_len(s as nat) == exp + bit_len(sig as nat),
            s == 0 ==> e <= MIN_EXPONENT - 2,
            bit_len(sig as nat) <= 128,
            exp <= e <= exp + 128,
            -8192 <= exp <= 8192,
            st ==> s >= 0x40_0000_0000_0000 || e <= MIN_EXPONENT - 2,
            pow2(55) == 0x80_0000_0000_0000,
        decreases s,
    {
        proof {
            lemma_round_shift_down(negative, s as nat, e as int, st);
            assert(bit_len(s as nat) == 1 + bit_len((s / 2) as nat));
        }
        st = st || s % 2 == 1;
        s = s / 2;
        e = e + 1;
    }
    if s == 0 {
        proof {
            lemma_round_pack_of_nothing(negative, e as int, st);
        }
        return if negative {
            SIGN_BIT
        } else {
            0
        };
    }
    while s < HIDDEN_BIT as u128 && e > MIN_EXPONENT
        invariant
            round_pack(negative, s as nat, e as int, st) == round_pack(
                negative,
                sig as nat,
                exp as int,
                sticky,
            ),
            0 < s < 0x80_0000_0000_0000,
            MIN_EXPONENT - 2 <= e <= exp + 128,
            -8192 <= exp <= 8192,
            st ==> s >= 0x40_0000_0000_0000 || e <= MIN_EXPONENT - 2,
            pow2(52) == 0x10_0000_0000_0000,
        decreases e - MIN_EXPONENT,
    {
        proof {
            lemma_round_shift_up(negative, s as nat, e as int);
        }
        s = s * 2;
        e = e - 1;
    }
    pack_rounded(negative, s, e, st)
}

/// `x * 2^d` for a significand `x` and a shift that keeps the result in range.
pub(crate) fn scale_up(x: u128, d: u64) -> (r: u128)
    requires
        x < 0x20_0000_0000_0000,
        d <= 64,
    ensures
        r == x * pow2(d as nat),
        r < 0x20_0000_0000_0000_0000_0000_0000_0000,
{
    let mut r: u128 = x;
    let mut i: u64 = 0;
    proof {
        lemma2_to64();
    }
    while i < d
        invariant
            i <= d <= 64,
            x < 0x20_0000_0000_0000,
            r == x * pow2(i as nat),
            r < 0x20_0000_0000_0000 * pow2(i as nat),
            pow2(i as nat) <= 0x1_0000_0000_0000_0000,
        decreases d - i,
    {
        proof {
            lemma_pow2_unfold((i + 1) as nat);
            let w = pow2(i as nat);
            assert(x * (2 * w) == 2 * (x * w)) by (nonlinear_arith);
            if i + 1 < 64 {
                vstd::arithmetic::power2::lemma_pow2_strictly_increases((i + 1) as nat, 64);
            }
            lemma2_to64_rest();
        }
        r = r * 2;
        i = i + 1;
    }
    r
}

} // verus!
