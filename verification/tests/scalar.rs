use num::bigint::BigInt;
use num::rational::BigRational;
use num::{Signed, Zero};

use sipg::common::scalar::Scalar;

fn scalar(value: f64) -> Scalar {
    let (mantissa, exponent, sign) = num::Float::integer_decode(value);
    Scalar::new(mantissa, exponent, sign).unwrap()
}

/// Whether two numbers differ by at most `10^-14`, in exact arithmetic.
fn within_tolerance(a: f64, b: f64) -> bool {
    let a = BigRational::from_float(a).unwrap();
    let b = BigRational::from_float(b).unwrap();
    let tolerance = BigRational::new(BigInt::from(1), BigInt::from(100_000_000_000_000u64));
    (a - b).abs() <= tolerance
}

fn check(a: f64, b: f64) {
    let expected = within_tolerance(a, b);
    assert_eq!(scalar(a).close_to(&scalar(b)), expected, "{a:e} and {b:e}");
    assert_eq!(scalar(b).close_to(&scalar(a)), expected, "{b:e} and {a:e}");
}

#[test]
fn close_to_agrees_with_subtraction_on_representable_differences() {
    assert!(scalar(1.0).close_to(&scalar(1.00000000000001)));
    assert!(!scalar(1.0).close_to(&scalar(1.00000000000002)));
    assert!(scalar(0.0).close_to(&scalar(1.0e-14)));
    assert!(scalar(0.0).close_to(&scalar(-1.0e-14)));
    assert!(!scalar(0.0).close_to(&scalar(1.0000000000000002e-14)));
    assert!(!scalar(5.0e-15).close_to(&scalar(-5.1e-15)));
    assert!(scalar(5.0e-15).close_to(&scalar(-4.9e-15)));
}

#[test]
fn new_takes_the_decomposition_of_every_finite_number() {
    for value in [0.0, -0.0, 1.0, -1.0, 0.1, 1.0e-14, f64::MAX, f64::MIN, f64::MIN_POSITIVE, 5.0e-324, 2.0e-310] {
        let (mantissa, exponent, sign) = num::Float::integer_decode(value);
        let scalar = Scalar::new(mantissa, exponent, sign).unwrap();
        assert_eq!(scalar.mantissa(), mantissa);
        assert_eq!(scalar.exponent(), exponent);
        assert_eq!(scalar.sign(), sign);
    }
}

#[test]
fn new_refuses_what_is_no_finite_number() {
    for value in [f64::INFINITY, f64::NEG_INFINITY, f64::NAN] {
        let (mantissa, exponent, sign) = num::Float::integer_decode(value);
        assert!(Scalar::new(mantissa, exponent, sign).is_none());
    }
    // a sign that is none
    assert!(Scalar::new(1 << 52, 0, 0).is_none());
    assert!(Scalar::new(1 << 52, 0, 2).is_none());
    // a mantissa of more than 53 bits
    assert!(Scalar::new(1 << 53, 0, 1).is_none());
    // a normal number without its leading bit
    assert!(Scalar::new(1, 0, 1).is_none());
    assert!(Scalar::new((1 << 52) - 1, -1074, 1).is_none());
    // a subnormal number with an odd mantissa
    assert!(Scalar::new(3, -1075, 1).is_none());
    // exponents out of range
    assert!(Scalar::new(1 << 52, 972, 1).is_none());
    assert!(Scalar::new(1 << 52, -1076, 1).is_none());
    // the ends of the range
    assert!(Scalar::new(1 << 52, 971, 1).is_some());
    assert!(Scalar::new((1 << 53) - 1, 971, -1).is_some());
    assert!(Scalar::new(1 << 52, -1074, 1).is_some());
    assert!(Scalar::new((1 << 53) - 2, -1075, 1).is_some());
    assert!(Scalar::new(0, -1075, -1).is_some());
}

#[test]
fn zero_is_positive_zero() {
    let zero = Scalar::zero();
    assert!(zero.identical(&scalar(0.0)));
    assert!(!zero.identical(&scalar(-0.0)));
    assert!(zero.close_to(&scalar(-0.0)));
    assert_eq!((zero.mantissa(), zero.exponent(), zero.sign()), (0, -1075, 1));
}

#[test]
fn identical_compares_the_decomposition() {
    assert!(scalar(0.3).identical(&scalar(0.3)));
    assert!(!scalar(0.3).identical(&scalar(-0.3)));
    assert!(!scalar(0.3).identical(&scalar(0.30000000000000004)));
    assert!(!scalar(1.0).identical(&scalar(2.0)));
}

#[test]
fn close_to_is_exact_where_both_are_tiny() {
    for a in [0.0, -0.0, 5.0e-324, -2.0e-310, 1.0e-200, -1.0e-30, 3.0e-16, -3.5e-15] {
        for b in [0.0, 5.0e-324, -1.0e-320, 1.0e-100, -1.0e-17, 3.4e-15, -3.5e-15] {
            check(a, b);
        }
    }
}

#[test]
fn close_to_is_exact_between_neighbours() {
    for base in [1.0, -1.0, 0.5, 3.3, 8.43214, 64.0, 63.99999999999999, 1024.0, 1.0e6, 1.0e15, 1.0e16, 1.0e300, 1.0e-3, 1.0e-10, 2.0e-14, 1.0e-14, 0.9e-14] {
        let bits = f64::to_bits(base);
        for step in [0u64, 1, 2, 3, 44, 45, 46, 47, 90, 91, 1000, 1 << 20, 1 << 40] {
            check(base, f64::from_bits(bits + step));
            check(base, f64::from_bits(bits - step));
            check(base, -f64::from_bits(bits + step));
        }
    }
}

#[test]
fn close_to_is_exact_far_apart() {
    for a in [1.0, -64.0, 1.0e-9, 2.9e-14, 1.0e300, -1.0e-13, 3.0e-14] {
        for b in [0.0, 1.0e-40, -1.0e-17, 1.0e-300, 5.0e-324, -1.0e-20] {
            check(a, b);
        }
    }
}

#[test]
fn close_to_is_exact_around_the_tolerance() {
    let tolerance = f64::to_bits(1.0e-14);
    let mut larger = Vec::new();
    for step in 0..4u64 {
        larger.push(f64::from_bits(tolerance + step));
        larger.push(f64::from_bits(tolerance - step));
    }
    for scale in [0.25, 0.5, 2.0, 4.0] {
        larger.push(1.0e-14 * scale);
    }
    // the gap between the tolerance and the double next to it
    let gap = (BigRational::new(BigInt::from(1), BigInt::from(100_000_000_000_000u64))
        - BigRational::from_float(1.0e-14).unwrap())
    .abs();
    assert!(!gap.is_zero());
    let mut smaller = vec![0.0, 5.0e-324, 1.0e-320, 1.0e-300, 1.0e-200, 1.0e-100, 1.0e-60];
    let mut power = 1.0e-14;
    for _ in 0..120 {
        power /= 2.0;
        smaller.push(power);
        smaller.push(power * 1.5);
        smaller.push(power * 1.0000000000000002);
    }
    for a in larger.iter() {
        for b in smaller.iter() {
            check(*a, *b);
            check(*a, -*b);
            check(-*a, *b);
            check(-*a, -*b);
        }
    }
}

#[test]
fn close_to_is_exact_on_many_pairs() {
    let mut state: u64 = 0x2545_f491_4f6c_dd1d;
    let mut next = move || {
        state ^= state << 13;
        state ^= state >> 7;
        state ^= state << 17;
        state
    };
    let mut checked = 0;
    let mut close = 0;
    while checked < 20000 {
        let a = f64::from_bits(next());
        if !a.is_finite() {
            continue;
        }
        // a second number at a random distance from the first, down to none
        let distance = f64::from_bits(next() % (0x3d5u64 << 52));
        let factor = (next() % 7) as f64 - 3.0;
        let b = match next() % 4 {
            0 => f64::from_bits(next()),
            1 => a + factor * distance,
            2 => a + factor * 3.0e-15,
            _ => f64::from_bits(f64::to_bits(a) ^ (next() % 64)),
        };
        if !b.is_finite() {
            continue;
        }
        check(a, b);
        checked += 1;
        if within_tolerance(a, b) {
            close += 1;
        }
    }
    assert!(close > 1000 && close < 19000, "{close}");
}

#[test]
fn bits_are_those_of_the_number() {
    for value in [0.0, -0.0, 1.0, -1.0, 0.1, -3.3, 8.43214, 1.0e-14, f64::MAX, f64::MIN, f64::MIN_POSITIVE, 5.0e-324, -2.0e-310, 1.0e300] {
        assert_eq!(scalar(value).to_bits(), value.to_bits(), "{value:e}");
        let from_bits = Scalar::from_bits(value.to_bits()).unwrap();
        assert!(from_bits.identical(&scalar(value)), "{value:e}");
        assert_eq!(f64::from_bits(from_bits.to_bits()).to_bits(), value.to_bits());
    }
}

#[test]
fn from_bits_refuses_what_is_no_finite_number() {
    assert!(Scalar::from_bits(f64::INFINITY.to_bits()).is_none());
    assert!(Scalar::from_bits(f64::NEG_INFINITY.to_bits()).is_none());
    assert!(Scalar::from_bits(f64::NAN.to_bits()).is_none());
    assert!(Scalar::from_bits(0x7ff0_0000_0000_0001).is_none());
    assert!(Scalar::from_bits(0xffff_ffff_ffff_ffff).is_none());
    assert!(Scalar::from_bits(0x7fef_ffff_ffff_ffff).is_some());
    assert!(Scalar::from_bits(0xffef_ffff_ffff_ffff).is_some());
}

#[test]
fn from_bits_decomposes_like_the_decoding_of_the_number() {
    let mut state: u64 = 0x9e37_79b9_7f4a_7c15;
    for _ in 0..20000 {
        state ^= state << 13;
        state ^= state >> 7;
        state ^= state << 17;
        let value = f64::from_bits(state);
        let (mantissa, exponent, sign) = num::Float::integer_decode(value);
        match Scalar::from_bits(state) {
            Some(scalar) => {
                assert!(value.is_finite());
                assert_eq!(
                    (scalar.mantissa(), scalar.exponent(), scalar.sign()),
                    (mantissa, exponent, sign)
                );
                assert_eq!(scalar.to_bits(), state);
            }
            None => {
                assert!(!value.is_finite());
                assert!(Scalar::new(mantissa, exponent, sign).is_none());
            }
        }
    }
}

#[test]
fn close_to_does_not_round_the_difference() {
    // the difference is above the tolerance by less than the subtraction in
    // double precision can tell
    let a = 1.0e-14;
    let b = -f64::from_bits(0x39af_f800_0000_0000);
    assert_eq!(b, -7.880905332432569e-31);
    assert_eq!(a - b, a);
    assert!(!within_tolerance(a, b));
    assert!(!scalar(a).close_to(&scalar(b)));
    // closer by a few bits it is within
    let c = -f64::from_bits(0x3940_0000_0000_0000);
    assert!(within_tolerance(a, c));
    assert!(scalar(a).close_to(&scalar(c)));
}
