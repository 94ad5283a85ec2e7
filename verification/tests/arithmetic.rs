//! The integer arithmetic on bit patterns must agree with the machine's
//! floating point, bit for bit, on every value that is not a NaN.

use gravsim::scalar::Scalar;

struct Gen {
    state: u64,
}

impl Gen {
    fn next(&mut self) -> u64 {
        self.state ^= self.state << 13;
        self.state ^= self.state >> 7;
        self.state ^= self.state << 17;
        self.state
    }

    /// A pattern with a random sign and fraction and an exponent field from `lo..hi`.
    fn in_exponent_range(&mut self, lo: u64, hi: u64) -> u64 {
        let raw = self.next();
        let exp = lo + (self.next() % (hi - lo));
        (raw & 0x800F_FFFF_FFFF_FFFF) | (exp << 52)
    }

    /// A pattern whose fraction is mostly zeros or mostly ones: these hit ties.
    fn sparse(&mut self) -> u64 {
        let raw = self.next();
        let exp = 1000 + (self.next() % 60);
        let keep = 0xFFFF_FFFF_FFFF_FFFFu64 << (self.next() % 53);
        let frac = if raw & 1 == 0 { raw & keep } else { !(raw & keep) };
        (raw & 0x8000_0000_0000_0000) | (exp << 52) | (frac & 0x000F_FFFF_FFFF_FFFF)
    }
}

fn same(got: u64, want: f64) -> bool {
    if want.is_nan() {
        f64::from_bits(got).is_nan()
    } else {
        got == want.to_bits()
    }
}

fn check_pair(a: u64, b: u64) {
    let (x, y) = (f64::from_bits(a), f64::from_bits(b));
    let (sa, sb) = (Scalar::from_bits(a), Scalar::from_bits(b));
    assert!(same(sa.add(sb).to_bits(), x + y), "{:e} + {:e} ({:#x}, {:#x})", x, y, a, b);
    assert!(same(sa.sub(sb).to_bits(), x - y), "{:e} - {:e} ({:#x}, {:#x})", x, y, a, b);
    assert!(same(sa.mul(sb).to_bits(), x * y), "{:e} * {:e} ({:#x}, {:#x})", x, y, a, b);
    assert!(same(sa.div(sb).to_bits(), x / y), "{:e} / {:e} ({:#x}, {:#x})", x, y, a, b);
    assert_eq!(sa.lt(sb), x < y, "{:e} < {:e}", x, y);
    assert_eq!(sa.num_eq(sb), x == y, "{:e} == {:e}", x, y);
}

fn check_one(a: u64) {
    let x = f64::from_bits(a);
    let s = Scalar::from_bits(a);
    assert!(same(s.sqrt().to_bits(), x.sqrt()), "sqrt {:e} ({:#x})", x, a);
    assert_eq!(s.neg().to_bits(), (-x).to_bits());
    assert_eq!(s.nan_check(), x.is_nan());
    assert_eq!(s.infinite_check(), x.is_infinite());
    assert_eq!(s.finite_check(), x.is_finite());
    assert_eq!(s.zero_check(), x == 0.0);
    assert_eq!(s.positive_check(), x > 0.0);
    assert_eq!(s.sign_negative(), x.is_sign_negative());
}

const SPECIAL: [u64; 22] = [
    0x0000_0000_0000_0000,
    0x8000_0000_0000_0000,
    0x0000_0000_0000_0001,
    0x8000_0000_0000_0001,
    0x0000_0000_0000_0002,
    0x000F_FFFF_FFFF_FFFF,
    0x0010_0000_0000_0000,
    0x0010_0000_0000_0001,
    0x001F_FFFF_FFFF_FFFF,
    0x3FF0_0000_0000_0000,
    0xBFF0_0000_0000_0000,
    0x3FF0_0000_0000_0001,
    0x3FEF_FFFF_FFFF_FFFF,
    0x4000_0000_0000_0000,
    0x4008_0000_0000_0000,
    0x4340_0000_0000_0000,
    0x7FEF_FFFF_FFFF_FFFF,
    0xFFEF_FFFF_FFFF_FFFF,
    0x7FF0_0000_0000_0000,
    0xFFF0_0000_0000_0000,
    0x7FF8_0000_0000_0000,
    0x7FF0_0000_0000_0001,
];

#[test]
fn special_values_agree_with_hardware() {
    for &a in SPECIAL.iter() {
        check_one(a);
        for &b in SPECIAL.iter() {
            check_pair(a, b);
        }
    }
}

#[test]
fn random_patterns_agree_with_hardware() {
    let mut g = Gen { state: 0x9E37_79B9_7F4A_7C15 };
    for _ in 0..300_000 {
        let (a, b) = (g.next(), g.next());
        check_pair(a, b);
        check_one(a);
    }
}

#[test]
fn close_exponents_agree_with_hardware() {
    let mut g = Gen { state: 0x2545_F491_4F6C_DD1D };
    for _ in 0..300_000 {
        let a = g.in_exponent_range(990, 1060);
        let b = g.in_exponent_range(990, 1060);
        check_pair(a, b);
        check_one(a);
    }
}

#[test]
fn ties_and_near_ties_agree_with_hardware() {
    let mut g = Gen { state: 0xD1B5_4A32_D192_ED03 };
    for _ in 0..300_000 {
        let (a, b) = (g.sparse(), g.sparse());
        check_pair(a, b);
        check_one(a);
    }
}

#[test]
fn subnormal_results_agree_with_hardware() {
    let mut g = Gen { state: 0x94D0_49BB_1331_11EB };
    for _ in 0..200_000 {
        let a = g.in_exponent_range(0, 60);
        let b = g.in_exponent_range(0, 60);
        check_pair(a, b);
        check_one(a);
        // Products and quotients that land at the bottom of the range.
        let c = g.in_exponent_range(480, 560);
        let d = g.in_exponent_range(480, 560);
        check_pair(c, d);
        let e = g.in_exponent_range(1, 80);
        let f = g.in_exponent_range(1000, 1100);
        check_pair(e, f);
    }
}

#[test]
fn overflowing_results_agree_with_hardware() {
    let mut g = Gen { state: 0xBF58_476D_1CE4_E5B9 };
    for _ in 0..200_000 {
        let a = g.in_exponent_range(1500, 2047);
        let b = g.in_exponent_range(1500, 2047);
        check_pair(a, b);
        let c = g.in_exponent_range(2000, 2047);
        let d = g.in_exponent_range(1, 900);
        check_pair(c, d);
    }
}

#[test]
fn distant_exponents_agree_with_hardware() {
    let mut g = Gen { state: 0x1234_5678_9ABC_DEF1 };
    for _ in 0..200_000 {
        let a = g.in_exponent_range(1100, 1110);
        // The gap runs across the point where the smaller term turns into a sticky tail.
        let b = g.in_exponent_range(1030, 1060);
        check_pair(a, b);
        check_pair(b, a);
    }
}

#[test]
fn one_plus_one_is_two() {
    let one = Scalar::one();
    assert_eq!(one.to_bits(), 1.0f64.to_bits());
    assert_eq!(one.add(one).to_bits(), 2.0f64.to_bits());
    assert_eq!(Scalar::zero().to_bits(), 0.0f64.to_bits());
}

#[test]
fn square_root_of_two() {
    let two = Scalar::from_bits(2.0f64.to_bits());
    assert_eq!(two.sqrt().to_bits(), 0x3FF6_A09E_667F_3BCD);
}

#[test]
fn one_sixth_is_rounded_once() {
    let one = Scalar::one();
    let six = Scalar::from_bits(6.0f64.to_bits());
    assert_eq!(one.div(six).to_bits(), 0x3FC5_5555_5555_5555);
}
