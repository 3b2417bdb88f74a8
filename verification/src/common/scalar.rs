//! Finite binary numbers in decomposed form.
//!
//! A [`Scalar`] is a finite double precision number taken apart into sign,
//! mantissa and exponent, so that its value `sign * mantissa * 2^exponent` is
//! exact integer data. Coordinates, boundary values and the penalty weight are
//! all scalars.

use vstd::prelude::*;
use vstd::arithmetic::power2::*;
use vstd::math::abs;

verus! {

/// Smallest exponent of a decomposition: that of zero and of the subnormal numbers.
pub const MIN_EXPONENT: i16 = -1075;

/// Largest exponent of a finite number.
pub const MAX_EXPONENT: i16 = 971;

/// The implicit leading bit of a normal mantissa, `2^52`.
pub const HIDDEN_BIT: u64 = 0x10_0000_0000_0000;

/// One more than the largest mantissa, `2^53`.
pub const MANTISSA_LIMIT: u64 = 0x20_0000_0000_0000;

/// The sign bit of the binary interchange format, `2^63`.
pub const SIGN_BIT: u64 = 0x8000_0000_0000_0000;

/// The exponent field of infinity and of what is not a number.
pub const SPECIAL_EXPONENT_FIELD: u64 = 2047;

/// The reciprocal of the tolerance of the approximate equality: `10^14`.
pub const INVERSE_TOLERANCE: u64 = 100_000_000_000_000;

/// The mathematical content of a [`Scalar`].
pub struct ScalarView {
    pub mantissa: nat,
    pub exponent: int,
    pub sign: int,
}

impl ScalarView {
    /// The triple is the decomposition of a finite double precision number:
    /// either a normal number, whose mantissa carries the leading bit, or a
    /// subnormal number or zero, at the smallest exponent with an even mantissa.
    pub open spec fn wf(self) -> bool {
        &&& (self.sign == 1 || self.sign == -1)
        &&& self.mantissa < MANTISSA_LIMIT
        &&& if self.exponent == MIN_EXPONENT {
            self.mantissa % 2 == 0
        } else {
            MIN_EXPONENT < self.exponent <= MAX_EXPONENT && HIDDEN_BIT <= self.mantissa
        }
    }

    /// The value of the number multiplied by `2^1075`, which is an integer.
    pub open spec fn numerator(self) -> int {
        self.sign * (self.mantissa * pow2((self.exponent + 1075) as nat))
    }

    /// The absolute value of the numerator.
    pub open spec fn magnitude(self) -> nat {
        self.mantissa * pow2((self.exponent + 1075) as nat)
    }

    /// The exponent field of the number in the binary interchange format:
    /// zero for zero and the subnormal numbers.
    pub open spec fn exponent_field(self) -> int {
        self.exponent + 1075
    }

    /// The fraction field of the number in the binary interchange format: the
    /// mantissa without the leading bit of a normal number, or without the
    /// last bit, which is zero, of a subnormal one.
    pub open spec fn fraction_field(self) -> int {
        if self.exponent == MIN_EXPONENT {
            self.mantissa as int / 2
        } else {
            self.mantissa - HIDDEN_BIT
        }
    }

    /// The number in the binary interchange format of double precision: the
    /// sign in bit 63, the exponent field in the bits 52 to 62, the fraction
    /// field in the bits 0 to 51.
    pub open spec fn bits(self) -> int {
        (if self.sign < 0 {
            SIGN_BIT as int
        } else {
            0
        }) + self.exponent_field() * HIDDEN_BIT + self.fraction_field()
    }
}

/// Two numbers differ by at most `10^-14`.
pub open spec fn within_tolerance(a: ScalarView, b: ScalarView) -> bool {
    abs(a.numerator() - b.numerator()) * INVERSE_TOLERANCE <= pow2(1075)
}

/// A finite double precision number as sign, mantissa and exponent.
#[derive(Clone, Copy, Debug, Hash)]
pub struct Scalar {
    mantissa: u64,
    exponent: i16,
    sign: i8,
}

impl View for Scalar {
    type V = ScalarView;

    closed spec fn view(&self) -> ScalarView {
        ScalarView {
            mantissa: self.mantissa as nat,
            exponent: self.exponent as int,
            sign: self.sign as int,
        }
    }
}

impl Scalar {
    #[verifier::type_invariant]
    closed spec fn inv(self) -> bool {
        self@.wf()
    }

    /// The scalar with the given decomposition, if it is one of a finite number.
    pub fn new(mantissa: u64, exponent: i16, sign: i8) -> (r: Option<Scalar>)
        ensures
            r.is_some() <==> (ScalarView {
                mantissa: mantissa as nat,
                exponent: exponent as int,
                sign: sign as int,
            }).wf(),
            r matches Some(s) ==> s@ == (ScalarView {
                mantissa: mantissa as nat,
                exponent: exponent as int,
                sign: sign as int,
            }),
    {
        if sign != 1 && sign != -1 {
            return None;
        }
        if mantissa >= MANTISSA_LIMIT {
            return None;
        }
        if exponent == MIN_EXPONENT {
            if mantissa % 2 != 0 {
                return None;
            }
        } else if exponent < MIN_EXPONENT || exponent > MAX_EXPONENT || mantissa < HIDDEN_BIT {
            return None;
        }
        Some(Scalar { mantissa, exponent, sign })
    }

    /// The scalar with the given bits in the binary interchange format of
    /// double precision, unless they stand for an infinity or for what is not
    /// a number.
    pub fn from_bits(bits: u64) -> (r: Option<Scalar>)
        ensures
            r is Some <==> (bits % SIGN_BIT) / HIDDEN_BIT != SPECIAL_EXPONENT_FIELD,
            r matches Some(s) ==> s@.bits() == bits && s@.wf(),
    {
        let sign: i8 = if bits >= SIGN_BIT {
            -1
        } else {
            1
        };
        let field = (bits % SIGN_BIT) / HIDDEN_BIT;
        let fraction = bits % HIDDEN_BIT;
        if field == SPECIAL_EXPONENT_FIELD {
            None
        } else if field == 0 {
            Some(Scalar { mantissa: 2 * fraction, exponent: MIN_EXPONENT, sign })
        } else {
            Some(
                Scalar {
                    mantissa: HIDDEN_BIT + fraction,
                    exponent: (field as i16) + MIN_EXPONENT,
                    sign,
                },
            )
        }
    }

    /// The scalar in the binary interchange format of double precision.
    pub fn to_bits(&self) -> (bits: u64)
        ensures
            bits == self@.bits(),
            (bits % SIGN_BIT) / HIDDEN_BIT != SPECIAL_EXPONENT_FIELD,
    {
        proof {
            use_type_invariant(self);
        }
        let sign: u64 = if self.sign < 0 {
            SIGN_BIT
        } else {
            0
        };
        if self.exponent == MIN_EXPONENT {
            sign + self.mantissa / 2
        } else {
            let field: u64 = (self.exponent - MIN_EXPONENT) as u64;
            sign + field * HIDDEN_BIT + (self.mantissa - HIDDEN_BIT)
        }
    }

    /// Positive zero.
    pub closed spec fn spec_zero() -> Scalar {
        Scalar { mantissa: 0, exponent: MIN_EXPONENT, sign: 1 }
    }

    /// Positive zero.
    #[verifier::when_used_as_spec(spec_zero)]
    pub fn zero() -> (r: Scalar)
        ensures
            r == Scalar::spec_zero(),
            r@ == (ScalarView { mantissa: 0, exponent: MIN_EXPONENT as int, sign: 1 }),
    {
        Scalar { mantissa: 0, exponent: MIN_EXPONENT, sign: 1 }
    }

    /// The mantissa: below `2^53`, and from `2^52` on for a normal number.
    pub fn mantissa(&self) -> (r: u64)
        ensures
            r == self@.mantissa,
            self@.wf(),
    {
        proof {
            use_type_invariant(self);
        }
        self.mantissa
    }

    /// The exponent of two that the mantissa is multiplied by.
    pub fn exponent(&self) -> (r: i16)
        ensures
            r == self@.exponent,
            self@.wf(),
    {
        proof {
            use_type_invariant(self);
        }
        self.exponent
    }

    /// The sign: `1` or `-1`.
    pub fn sign(&self) -> (r: i8)
        ensures
            r == self@.sign,
            self@.wf(),
    {
        proof {
            use_type_invariant(self);
        }
        self.sign
    }

    /// Whether two scalars have the same decomposition. Zero and negative zero
    /// are not identical.
    pub fn identical(&self, other: &Scalar) -> (r: bool)
        ensures
            r == (self@ == other@),
            r == (*self == *other),
    {
        self.mantissa == other.mantissa && self.exponent == other.exponent && self.sign
            == other.sign
    }
}

/// The bits of a scalar determine it: two decompositions of finite numbers
/// with the same bits are the same.
pub proof fn lemma_bits_determine(a: ScalarView, b: ScalarView)
    requires
        a.wf(),
        b.wf(),
        a.bits() == b.bits(),
    ensures
        a == b,
{
    let h = HIDDEN_BIT as int;
    let body_a = a.exponent_field() * h + a.fraction_field();
    let body_b = b.exponent_field() * h + b.fraction_field();
    assert(0 <= a.fraction_field() < h && 0 <= b.fraction_field() < h);
    assert(0 <= a.exponent_field() <= 2046 && 0 <= b.exponent_field() <= 2046);
    assert(0 <= body_a < SIGN_BIT && 0 <= body_b < SIGN_BIT) by (nonlinear_arith)
        requires
            h == 0x10_0000_0000_0000,
            SIGN_BIT == 0x8000_0000_0000_0000,
            body_a == a.exponent_field() * h + a.fraction_field(),
            body_b == b.exponent_field() * h + b.fraction_field(),
            0 <= a.fraction_field() < h,
            0 <= b.fraction_field() < h,
            0 <= a.exponent_field() <= 2046,
            0 <= b.exponent_field() <= 2046,
    ;
    assert(a.sign == b.sign);
    assert(body_a == body_b);
    assert(a.exponent_field() == b.exponent_field() && a.fraction_field() == b.fraction_field())
        by (nonlinear_arith)
        requires
            h > 0,
            a.exponent_field() * h + a.fraction_field() == b.exponent_field() * h
                + b.fraction_field(),
            0 <= a.fraction_field() < h,
            0 <= b.fraction_field() < h,
    ;
}

/// Positive zero has the mantissa zero at the smallest exponent.
pub proof fn lemma_zero()
    ensures
        Scalar::zero()@ == (ScalarView { mantissa: 0, exponent: MIN_EXPONENT as int, sign: 1 }),
        Scalar::zero()@.wf(),
        Scalar::zero()@.numerator() == 0,
{
    assert(0 * pow2(0) == 0);
}

/// Being within the tolerance does not depend on the order of the two.
pub proof fn lemma_within_tolerance_symmetric(a: ScalarView, b: ScalarView)
    ensures
        within_tolerance(a, b) == within_tolerance(b, a),
{
    assert(abs(a.numerator() - b.numerator()) == abs(b.numerator() - a.numerator()));
}

/// Every scalar is within the tolerance of itself.
pub proof fn lemma_within_tolerance_reflexive(a: ScalarView)
    ensures
        within_tolerance(a, a),
{
    assert(abs(a.numerator() - a.numerator()) * INVERSE_TOLERANCE == 0);
}

/// Multiplying both sides by a positive number keeps the order.
proof fn lemma_cancel(u: int, v: int, p: int)
    by (nonlinear_arith)
    requires
        p > 0,
    ensures
        (u * p <= v * p) <==> (u <= v),
{
}

/// Comparing with a rounded-down quotient is comparing the product.
proof fn lemma_quotient(w: int, a: int, c: int)
    by (nonlinear_arith)
    requires
        c > 0,
        a >= 0,
    ensures
        (w <= a / c) <==> (w * c <= a),
{
}

/// Powers of two do not decrease with the exponent.
proof fn lemma_pow2_monotone(e1: nat, e2: nat)
    requires
        e1 <= e2,
    ensures
        pow2(e1) <= pow2(e2),
{
    if e1 < e2 {
        lemma_pow2_strictly_increases(e1, e2);
    }
}

/// The powers of two that the comparison works with, as numbers.
proof fn lemma_pow2_values()
    ensures
        pow2(10) == 0x400,
        pow2(11) == 0x800,
        pow2(42) == 0x400_0000_0000,
        pow2(46) == 0x4000_0000_0000,
        pow2(47) == 0x8000_0000_0000,
        pow2(51) == 0x8_0000_0000_0000,
        pow2(52) == 0x10_0000_0000_0000,
        pow2(53) == 0x20_0000_0000_0000,
        pow2(63) == 0x8000_0000_0000_0000,
        pow2(64) == 0x1_0000_0000_0000_0000,
        pow2(100) == 0x10_0000_0000_0000_0000_0000_0000,
        pow2(110) == 0x4000_0000_0000_0000_0000_0000_0000,
        pow2(126) == 0x4000_0000_0000_0000_0000_0000_0000_0000,
        pow2(127) == 0x8000_0000_0000_0000_0000_0000_0000_0000,
{
    lemma2_to64();
    lemma2_to64_rest();
    lemma_pow2_adds(50, 50);
    lemma_pow2_adds(50, 60);
    lemma_pow2_adds(63, 63);
    lemma_pow2_adds(63, 64);
}

/// The numerator is the magnitude with the sign, and the magnitude of a
/// well-formed scalar lies within one binade above its exponent.
proof fn lemma_magnitude(a: ScalarView)
    requires
        a.wf(),
    ensures
        a.numerator() == a.magnitude() || a.numerator() == -a.magnitude(),
        a.sign == 1 ==> a.numerator() == a.magnitude(),
        a.sign == -1 ==> a.numerator() == -a.magnitude(),
        a.magnitude() < pow2(53) * pow2((a.exponent + 1075) as nat),
        a.exponent > MIN_EXPONENT ==> a.magnitude() >= pow2(52) * pow2(
            (a.exponent + 1075) as nat,
        ),
{
    lemma_pow2_values();
    let p = pow2((a.exponent + 1075) as nat);
    lemma_pow2_pos((a.exponent + 1075) as nat);
    let m = a.mantissa as int;
    assert(m * p < pow2(53) * p) by (nonlinear_arith)
        requires
            m < pow2(53),
            p > 0,
    ;
    if a.exponent > MIN_EXPONENT {
        assert(m * p >= pow2(52) * p) by (nonlinear_arith)
            requires
                m >= pow2(52),
                p > 0,
        ;
    }
    assert(1 * (m * p) == m * p);
    assert((-1) * (m * p) == -(m * p)) by (nonlinear_arith);
}

/// Two scalars below `2^-48` in magnitude are within the tolerance.
proof fn lemma_both_tiny(a: ScalarView, b: ScalarView)
    requires
        a.wf(),
        b.wf(),
        a.exponent <= -101,
        b.exponent <= -101,
    ensures
        within_tolerance(a, b),
{
    lemma_pow2_values();
    lemma_magnitude(a);
    lemma_magnitude(b);
    let ea = (a.exponent + 1075) as nat;
    let eb = (b.exponent + 1075) as nat;
    lemma_pow2_monotone(ea, 974);
    lemma_pow2_monotone(eb, 974);
    lemma_pow2_adds(53, 974);
    lemma_pow2_adds(1, 1027);
    lemma_pow2_adds(47, 1028);
    lemma2_to64();
    let q = pow2(974);
    assert(pow2(53) * pow2(ea) <= pow2(53) * q) by (nonlinear_arith)
        requires
            pow2(ea) <= q,
    ;
    assert(pow2(53) * pow2(eb) <= pow2(53) * q) by (nonlinear_arith)
        requires
            pow2(eb) <= q,
    ;
    let n = abs(a.numerator() - b.numerator()) as int;
    assert(n < pow2(1028));
    assert(n * INVERSE_TOLERANCE <= pow2(47) * pow2(1028)) by (nonlinear_arith)
        requires
            0 <= n < pow2(1028),
            INVERSE_TOLERANCE <= pow2(47),
    ;
}

/// Where the exponents are at least eleven apart and the larger scalar is at
/// least `2^-45`, the two are not within the tolerance.
proof fn lemma_far_apart(hi: ScalarView, lo: ScalarView)
    requires
        hi.wf(),
        lo.wf(),
        hi.exponent >= -97,
        hi.exponent - lo.exponent >= 11,
    ensures
        !within_tolerance(hi, lo),
{
    lemma_pow2_values();
    lemma_magnitude(hi);
    lemma_magnitude(lo);
    let h = (hi.exponent + 1075) as nat;
    let l = (lo.exponent + 1075) as nat;
    let ph = pow2(h);
    lemma_pow2_pos(h);
    // the smaller one is below 2^42 * 2^h
    lemma_pow2_monotone(l, (h - 11) as nat);
    lemma_pow2_adds(11, (h - 11) as nat);
    let q = pow2((h - 11) as nat);
    assert(pow2(53) * pow2(l) <= pow2(42) * ph) by (nonlinear_arith)
        requires
            pow2(l) <= q,
            ph == pow2(11) * q,
            pow2(53) == pow2(42) * pow2(11),
            pow2(42) > 0,
            pow2(11) > 0,
    ;
    // so the difference is above 2^51 * 2^h, which is at least 2^1029
    assert(pow2(52) * ph - pow2(42) * ph >= pow2(51) * ph) by (nonlinear_arith)
        requires
            pow2(52) - pow2(42) >= pow2(51),
            ph > 0,
    ;
    lemma_pow2_monotone(978, h);
    lemma_pow2_adds(51, 978);
    lemma_pow2_adds(46, 1029);
    assert(pow2(51) * ph >= pow2(51) * pow2(978)) by (nonlinear_arith)
        requires
            ph >= pow2(978),
    ;
    let n = abs(hi.numerator() - lo.numerator()) as int;
    assert(n > pow2(1029));
    assert(n * INVERSE_TOLERANCE > pow2(46) * pow2(1029)) by (nonlinear_arith)
        requires
            n > pow2(1029),
            INVERSE_TOLERANCE > pow2(46),
            pow2(46) > 0,
    ;
}

/// With exponents `d` apart, the difference of the two numerators is the
/// difference `n` of the mantissas, the larger one shifted by `d`, at the
/// smaller exponent. Being within the tolerance is then a comparison of `n`.
proof fn lemma_near(hi: ScalarView, lo: ScalarView, d: nat, n: int)
    requires
        hi.wf(),
        lo.wf(),
        hi.exponent - lo.exponent == d,
        n == abs(hi.sign * (hi.mantissa * pow2(d)) - lo.sign * lo.mantissa),
    ensures
        lo.exponent >= 0 ==> (within_tolerance(hi, lo) <==> n == 0),
        lo.exponent < 0 ==> (within_tolerance(hi, lo) <==> n * INVERSE_TOLERANCE <= pow2(
            (-lo.exponent) as nat,
        )),
{
    let l = (lo.exponent + 1075) as nat;
    let pl = pow2(l) as int;
    let pd = pow2(d) as int;
    lemma_pow2_pos(l);
    lemma_pow2_pos(d);
    lemma_pow2_adds(d, l);
    let mh = hi.mantissa as int;
    let ml = lo.mantissa as int;
    let diff = hi.sign * (mh * pd) - lo.sign * ml;
    assert(hi.numerator() == (hi.sign * (mh * pd)) * pl) by (nonlinear_arith)
        requires
            hi.numerator() == hi.sign * (mh * (pd * pl)),
    ;
    assert(lo.numerator() == (lo.sign * ml) * pl) by (nonlinear_arith)
        requires
            lo.numerator() == lo.sign * (ml * pl),
    ;
    assert(hi.numerator() - lo.numerator() == diff * pl) by (nonlinear_arith)
        requires
            hi.numerator() == (hi.sign * (mh * pd)) * pl,
            lo.numerator() == (lo.sign * ml) * pl,
            diff == hi.sign * (mh * pd) - lo.sign * ml,
    ;
    assert(abs(diff * pl) == n * pl) by (nonlinear_arith)
        requires
            n == abs(diff),
            pl > 0,
    ;
    let t = INVERSE_TOLERANCE as int;
    assert(n * pl * t == (n * t) * pl) by (nonlinear_arith);
    if lo.exponent >= 0 {
        let e = lo.exponent as nat;
        lemma_pow2_adds(1075, e);
        lemma_pow2_pos(e);
        lemma_pow2_pos(1075);
        let pe = pow2(e) as int;
        let p = pow2(1075) as int;
        if n != 0 {
            assert((n * t) * (p * pe) > p) by (nonlinear_arith)
                requires
                    n >= 1,
                    t > 1,
                    p > 0,
                    pe >= 1,
            ;
        } else {
            assert((n * t) * pl == 0) by (nonlinear_arith)
                requires
                    n == 0,
            ;
        }
    } else {
        let k = (-lo.exponent) as nat;
        lemma_pow2_adds(k, l);
        lemma_cancel(n * t, pow2(k) as int, pl);
    }
}

/// Where the smaller scalar is a perturbation of the larger one: with the
/// larger exponent at `-t` and the exponents `d` apart, being within the
/// tolerance compares `x - z`, the excess of the larger scalar over the
/// tolerance, with `y`, the smaller scalar, at their common scale.
proof fn lemma_perturbed(hi: ScalarView, lo: ScalarView, d: nat, t: nat, x: int, y: int, z: int)
    requires
        hi.wf(),
        lo.wf(),
        hi.exponent == -t,
        hi.exponent - lo.exponent == d,
        d >= 11,
        98 <= t <= 100,
        x == hi.mantissa * INVERSE_TOLERANCE,
        y == lo.mantissa * INVERSE_TOLERANCE,
        z == pow2(t),
    ensures
        hi.sign == lo.sign ==> (within_tolerance(hi, lo) <==> (x - z) * pow2(d) <= y),
        hi.sign != lo.sign ==> (within_tolerance(hi, lo) <==> y <= (z - x) * pow2(d)),
        0 <= y < pow2(100),
        0 <= x < pow2(100),
{
    lemma_pow2_values();
    let pd = pow2(d) as int;
    lemma_pow2_pos(d);
    lemma_pow2_monotone(11, d);
    let mh = hi.mantissa as int;
    let ml = lo.mantissa as int;
    let tol = INVERSE_TOLERANCE as int;
    assert(0 <= y < pow2(100) && 0 <= x < pow2(100)) by (nonlinear_arith)
        requires
            x == mh * tol,
            y == ml * tol,
            0 <= mh < 0x20_0000_0000_0000,
            0 <= ml < 0x20_0000_0000_0000,
            tol == 100_000_000_000_000,
            pow2(100) == 0x10_0000_0000_0000_0000_0000_0000,
    ;
    // the shifted larger mantissa dominates the smaller one
    assert(mh * pd > ml) by (nonlinear_arith)
        requires
            mh >= 0x10_0000_0000_0000,
            pd >= 0x800,
            ml < 0x20_0000_0000_0000,
    ;
    let same = hi.sign == lo.sign;
    let n: int = if same {
        mh * pd - ml
    } else {
        mh * pd + ml
    };
    assert(n == abs(hi.sign * (mh * pd) - lo.sign * ml)) by (nonlinear_arith)
        requires
            hi.sign == 1 || hi.sign == -1,
            lo.sign == 1 || lo.sign == -1,
            mh * pd > ml,
            ml >= 0,
            n == if hi.sign == lo.sign {
                mh * pd - ml
            } else {
                mh * pd + ml
            },
    ;
    lemma_near(hi, lo, d, n);
    // within_tolerance <==> n * tol <= 2^(d + t)
    lemma_pow2_adds(d, t);
    assert((-lo.exponent) as nat == d + t);
    if same {
        assert((n * tol <= pd * z) <==> ((x - z) * pd <= y)) by (nonlinear_arith)
            requires
                n == mh * pd - ml,
                x == mh * tol,
                y == ml * tol,
        ;
    } else {
        assert((n * tol <= pd * z) <==> (y <= (z - x) * pd)) by (nonlinear_arith)
            requires
                n == mh * pd + ml,
                x == mh * tol,
                y == ml * tol,
        ;
    }
}

/// The power of two with the given exponent.
fn pow2_u128(k: u32) -> (r: u128)
    requires
        k <= 127,
    ensures
        r == pow2(k as nat),
{
    let mut r: u128 = 1;
    let mut i: u32 = 0;
    proof {
        lemma2_to64();
    }
    while i < k
        invariant
            i <= k <= 127,
            r == pow2(i as nat),
        decreases k - i,
    {
        proof {
            lemma_pow2_values();
            lemma_pow2_monotone(i as nat, 126);
            lemma_pow2_unfold((i + 1) as nat);
        }
        r = r * 2;
        i = i + 1;
    }
    r
}

impl Scalar {
    /// Whether two scalars differ by at most `10^-14`, decided exactly.
    pub fn close_to(&self, other: &Scalar) -> (r: bool)
        ensures
            r == within_tolerance(self@, other@),
    {
        proof {
            use_type_invariant(self);
            use_type_invariant(other);
        }
        if self.exponent >= other.exponent {
            Self::close_ordered(self, other)
        } else {
            Self::close_ordered(other, self)
        }
    }

    /// The comparison of [`Scalar::close_to`], the scalar with the larger
    /// exponent first.
    fn close_ordered(hi: &Scalar, lo: &Scalar) -> (r: bool)
        requires
            hi@.wf(),
            lo@.wf(),
            hi@.exponent >= lo@.exponent,
        ensures
            r == within_tolerance(hi@, lo@),
            r == within_tolerance(lo@, hi@),
    {
        proof {
            lemma_pow2_values();
            lemma_within_tolerance_symmetric(hi@, lo@);
        }
        if hi.exponent <= -101 {
            proof {
                lemma_both_tiny(hi@, lo@);
            }
            return true;
        }
        let d: u32 = (hi.exponent as i32 - lo.exponent as i32) as u32;
        let same_sign = hi.sign == lo.sign;
        let tolerance: u128 = INVERSE_TOLERANCE as u128;
        if d <= 10 {
            let shift = pow2_u128(d);
            proof {
                lemma_pow2_monotone(d as nat, 10);
                assert(hi.mantissa * shift < 0x8000_0000_0000_0000) by (nonlinear_arith)
                    requires
                        hi.mantissa < 0x20_0000_0000_0000,
                        shift <= 0x400,
                ;
            }
            let a: u128 = hi.mantissa as u128 * shift;
            let b: u128 = lo.mantissa as u128;
            let n: u128 = if same_sign {
                if a >= b {
                    a - b
                } else {
                    b - a
                }
            } else {
                a + b
            };
            proof {
                let mh = hi@.mantissa as int;
                let ml = lo@.mantissa as int;
                let pd = pow2(d as nat) as int;
                assert(n == abs(hi@.sign * (mh * pd) - lo@.sign * ml)) by (nonlinear_arith)
                    requires
                        hi@.sign == 1 || hi@.sign == -1,
                        lo@.sign == 1 || lo@.sign == -1,
                        a == mh * pd,
                        b == ml,
                        a >= 0,
                        b >= 0,
                        n == if hi@.sign == lo@.sign {
                            if a >= b {
                                a - b
                            } else {
                                b - a
                            }
                        } else {
                            a + b
                        },
                ;
                lemma_near(hi@, lo@, d as nat, n as int);
            }
            if lo.exponent >= 0 {
                n == 0
            } else {
                let k: u32 = (-(lo.exponent as i32)) as u32;
                proof {
                    assert(n * tolerance < 0x8000_0000_0000_0000_0000_0000_0000) by (nonlinear_arith)
                        requires
                            n < 0x1_0000_0000_0000_0000,
                            tolerance == 100_000_000_000_000,
                    ;
                }
                let bound = pow2_u128(k);
                n * tolerance <= bound
            }
        } else if hi.exponent >= -97 {
            proof {
                lemma_far_apart(hi@, lo@);
            }
            false
        } else {
            let t: u32 = (-(hi.exponent as i32)) as u32;
            let z = pow2_u128(t);
            let x: u128 = hi.mantissa as u128 * tolerance;
            let y: u128 = lo.mantissa as u128 * tolerance;
            proof {
                lemma_perturbed(hi@, lo@, d as nat, t as nat, x as int, y as int, z as int);
                lemma_pow2_pos(d as nat);
                if d >= 100 {
                    lemma_pow2_monotone(100, d as nat);
                }
            }
            let ghost pd = pow2(d as nat) as int;
            if same_sign {
                if x <= z {
                    proof {
                        assert((x - z) * pd <= 0) by (nonlinear_arith)
                            requires
                                x - z <= 0,
                                pd > 0,
                        ;
                    }
                    true
                } else if d >= 100 {
                    proof {
                        assert((x - z) * pd >= pd) by (nonlinear_arith)
                            requires
                                x - z >= 1,
                                pd > 0,
                        ;
                    }
                    false
                } else {
                    let shift = pow2_u128(d);
                    proof {
                        lemma_quotient(x - z, y as int, shift as int);
                    }
                    let quotient = y / shift;
                    x - z <= quotient
                }
            } else {
                if z <= x {
                    proof {
                        assert((z - x) * pd <= 0 && (z < x ==> (z - x) * pd < 0) && (z == x ==> (z
                            - x) * pd == 0)) by (nonlinear_arith)
                            requires
                                z - x <= 0,
                                pd > 0,
                        ;
                    }
                    y == 0 && z == x
                } else if y == 0 {
                    proof {
                        assert((z - x) * pd >= 0) by (nonlinear_arith)
                            requires
                                z - x >= 0,
                                pd > 0,
                        ;
                    }
                    true
                } else if d >= 100 {
                    proof {
                        assert((z - x) * pd >= pd) by (nonlinear_arith)
                            requires
                                z - x >= 1,
                                pd > 0,
                        ;
                    }
                    true
                } else {
                    let shift = pow2_u128(d);
                    proof {
                        lemma_quotient(z - x, y - 1, shift as int);
                    }
                    let quotient = (y - 1) / shift;
                    z - x > quotient
                }
            }
        }
    }
}

} // verus!
