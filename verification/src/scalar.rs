//! Real numbers in IEEE 754 double precision, handled as their 64-bit patterns.
//!
//! A pattern holds a sign bit, an eleven-bit biased exponent and a 52-bit
//! fraction. Everything here is whole-number work on those fields: the order
//! of two numbers, the significand and exponent from which a number's exact
//! value is read off, and the way back from a whole number over a power of
//! two to its pattern.

use vstd::arithmetic::div_mod::*;
use vstd::arithmetic::mul::*;
use vstd::arithmetic::power2::*;
use vstd::prelude::*;

verus! {

/// The sign bit of a pattern.
pub const SIGN_BIT: u64 = 0x8000_0000_0000_0000;

/// The pattern of positive infinity: every exponent bit set, no fraction bit.
pub const INFINITY_BITS: u64 = 0x7ff0_0000_0000_0000;

/// Two to the power 52: the weight of the lowest exponent bit, and the hidden
/// leading bit of a normal number's significand.
pub const HIDDEN_BIT: u64 = 0x0010_0000_0000_0000;

/// The pattern of 1.
pub const ONE_BITS: u64 = 0x3ff0_0000_0000_0000;

/// A double-precision number, identified by its bit pattern.
///
/// `==` on two scalars compares patterns, so it tells `-0` from `+0` and one
/// NaN from another; the numeric order is `lt` and `le`.
#[derive(Clone, Copy, Debug, PartialEq, Eq, Structural)]
pub struct Scalar {
    pub bits: u64,
}

impl Scalar {
    /// Whether the sign bit is set.
    pub open spec fn negative(self) -> bool {
        self.bits >= SIGN_BIT
    }

    /// The pattern without its sign bit.
    pub open spec fn magnitude(self) -> nat {
        if self.bits >= SIGN_BIT {
            (self.bits - SIGN_BIT) as nat
        } else {
            self.bits as nat
        }
    }

    /// Whether the pattern is not a number: exponent all ones, fraction not zero.
    pub open spec fn nan(self) -> bool {
        self.magnitude() > INFINITY_BITS
    }

    /// Whether the pattern is a zero, a subnormal or a normal number.
    pub open spec fn finite(self) -> bool {
        self.magnitude() < INFINITY_BITS
    }

    /// The place of a number among all numbers: the magnitude, counted
    /// downwards from zero when the sign bit is set. Both zeros have rank 0,
    /// and of two numbers the smaller has the smaller rank.
    pub open spec fn rank(self) -> int {
        if self.negative() {
            -(self.magnitude() as int)
        } else {
            self.magnitude() as int
        }
    }

    /// The numeric `<`: false as soon as one side is NaN.
    pub open spec fn spec_lt(self, other: Scalar) -> bool {
        !self.nan() && !other.nan() && self.rank() < other.rank()
    }

    /// The numeric `<=`: false as soon as one side is NaN.
    pub open spec fn spec_le(self, other: Scalar) -> bool {
        !self.nan() && !other.nan() && self.rank() <= other.rank()
    }

    /// The biased exponent: the eleven bits below the sign bit.
    pub open spec fn exponent(self) -> nat {
        self.magnitude() / (HIDDEN_BIT as nat)
    }

    /// The fraction: the low 52 bits.
    pub open spec fn fraction(self) -> nat {
        self.magnitude() % (HIDDEN_BIT as nat)
    }

    /// The significand: the fraction, below the hidden bit in a normal number
    /// and alone in a subnormal one.
    pub open spec fn significand(self) -> nat {
        if self.exponent() == 0 {
            self.fraction()
        } else {
            HIDDEN_BIT as nat + self.fraction()
        }
    }

    /// The exponent that weighs the significand: a finite number has the
    /// absolute value `significand * 2^(weight - 1075)`.
    pub open spec fn weight(self) -> nat {
        if self.exponent() == 0 {
            1
        } else {
            self.exponent()
        }
    }

    /// The absolute value of a finite number, counted in units of 2^-1074,
    /// the smallest positive double. Every finite double is a whole number
    /// of these.
    pub open spec fn units(self) -> nat {
        self.significand() * pow2((self.weight() - 1) as nat)
    }

    /// The value of a finite number, counted in units of 2^-1074: the units
    /// of its absolute value, below zero when the sign bit is set.
    pub open spec fn signed_units(self) -> int {
        if self.negative() {
            -(self.units() as int)
        } else {
            self.units() as int
        }
    }

    /// The same number with the opposite sign: the sign bit flipped, the rest
    /// of the pattern kept.
    pub open spec fn negated(self) -> Scalar {
        if self.bits >= SIGN_BIT {
            Scalar { bits: (self.bits - SIGN_BIT) as u64 }
        } else {
            Scalar { bits: (self.bits + SIGN_BIT) as u64 }
        }
    }

    /// Positive zero.
    pub open spec fn spec_zero() -> Scalar {
        Scalar { bits: 0 }
    }

    /// Positive infinity.
    pub open spec fn spec_infinity() -> Scalar {
        Scalar { bits: INFINITY_BITS }
    }

    /// The number 1.
    pub open spec fn spec_one() -> Scalar {
        Scalar { bits: ONE_BITS }
    }

    /// The scalar with the given pattern.
    pub fn from_bits(bits: u64) -> (s: Scalar)
        ensures
            s.bits == bits,
    {
        Scalar { bits }
    }

    /// The pattern of this scalar.
    pub fn to_bits(self) -> (bits: u64)
        ensures
            bits == self.bits,
    {
        self.bits
    }

    /// Positive zero.
    #[verifier::when_used_as_spec(spec_zero)]
    pub fn zero() -> (s: Scalar)
        ensures
            s == Scalar::spec_zero(),
    {
        Scalar { bits: 0 }
    }

    /// The number 1.
    #[verifier::when_used_as_spec(spec_one)]
    pub fn one() -> (s: Scalar)
        ensures
            s == Scalar::spec_one(),
    {
        Scalar { bits: ONE_BITS }
    }

    /// Positive infinity.
    #[verifier::when_used_as_spec(spec_infinity)]
    pub fn infinity() -> (s: Scalar)
        ensures
            s == Scalar::spec_infinity(),
    {
        Scalar { bits: INFINITY_BITS }
    }

    /// The pattern without its sign bit, as a machine integer.
    fn magnitude_bits(self) -> (m: u64)
        ensures
            m == self.magnitude(),
            m < SIGN_BIT,
    {
        if self.bits >= SIGN_BIT {
            self.bits - SIGN_BIT
        } else {
            self.bits
        }
    }

    /// Whether this scalar is NaN.
    #[verifier::when_used_as_spec(nan)]
    pub fn is_nan(self) -> (b: bool)
        ensures
            b == self.nan(),
    {
        self.magnitude_bits() > INFINITY_BITS
    }

    /// The rank as a machine integer.
    fn rank_value(self) -> (r: i64)
        ensures
            r == self.rank(),
    {
        let m: u64 = self.magnitude_bits();
        if self.bits >= SIGN_BIT {
            -(m as i64)
        } else {
            m as i64
        }
    }

    /// The numeric `<`.
    #[verifier::when_used_as_spec(spec_lt)]
    pub fn lt(self, other: Scalar) -> (b: bool)
        ensures
            b == self.spec_lt(other),
    {
        !self.is_nan() && !other.is_nan() && self.rank_value() < other.rank_value()
    }

    /// The numeric `<=`.
    #[verifier::when_used_as_spec(spec_le)]
    pub fn le(self, other: Scalar) -> (b: bool)
        ensures
            b == self.spec_le(other),
    {
        !self.is_nan() && !other.is_nan() && self.rank_value() <= other.rank_value()
    }

    /// The significand and the weight of this scalar.
    pub fn decode(self) -> (parts: (u64, u32))
        ensures
            parts.0 == self.significand(),
            parts.1 == self.weight(),
            parts.0 < 2 * HIDDEN_BIT,
            1 <= parts.1 <= 2047,
            self.exponent() > 0 ==> parts.0 >= HIDDEN_BIT,
    {
        let m: u64 = self.magnitude_bits();
        let exponent: u64 = m >> 52;
        let fraction: u64 = m & 0x000f_ffff_ffff_ffff;
        assert(exponent == m / 0x0010_0000_0000_0000 && fraction == m % 0x0010_0000_0000_0000
            && exponent <= 2047) by (bit_vector)
            requires
                exponent == m >> 52,
                fraction == m & 0x000f_ffff_ffff_ffff,
                m < 0x8000_0000_0000_0000,
        ;
        if exponent == 0 {
            (fraction, 1)
        } else {
            (HIDDEN_BIT + fraction, exponent as u32)
        }
    }

    /// The number `numerator * 2^-shift`, below zero if `negative` is set:
    /// a whole number below 2^53 over a power of two is a double as it stands.
    pub fn dyadic(negative: bool, numerator: u64, shift: u32) -> (s: Scalar)
        requires
            numerator < 2 * HIDDEN_BIT,
            shift <= 1022,
        ensures
            s.finite(),
            s.negative() == negative,
            s.units() == numerator * pow2((1074 - shift) as nat),
            s.signed_units() == if negative {
                -(numerator * pow2((1074 - shift) as nat))
            } else {
                numerator * pow2((1074 - shift) as nat)
            },
    {
        let sign: u64 = if negative {
            SIGN_BIT
        } else {
            0
        };
        if numerator == 0 {
            let s = Scalar { bits: sign };
            proof {
                assert(s.magnitude() == 0);
                assert(s.significand() == 0);
                lemma_mul_basics(pow2(0) as int);
                lemma_mul_basics(pow2((1074 - shift) as nat) as int);
            }
            return s;
        }
        // Shift the numerator up until its leading bit is the hidden bit.
        let mut lifted: u64 = numerator;
        let mut by: u32 = 0;
        proof {
            lemma2_to64();
        }
        while lifted < HIDDEN_BIT
            invariant
                0 < numerator,
                lifted < 2 * HIDDEN_BIT,
                lifted == numerator * pow2(by as nat),
                by <= 52,
            decreases 52 - by,
        {
            proof {
                lemma_pow2_unfold((by + 1) as nat);
                assert(numerator * (2 * pow2(by as nat)) == 2 * (numerator * pow2(by as nat)))
                    by (nonlinear_arith);
                if by == 52 {
                    // Fifty-two doublings of a number above zero reach the hidden bit.
                    lemma2_to64_rest();
                    assert(numerator * pow2(52) >= pow2(52)) by (nonlinear_arith)
                        requires
                            numerator >= 1,
                    ;
                }
            }
            lifted = lifted * 2;
            by = by + 1;
        }
        let weight: u32 = 1075 - shift - by;
        let s = Scalar { bits: sign + (weight as u64) * HIDDEN_BIT + (lifted - HIDDEN_BIT) };
        proof {
            let m = s.magnitude() as int;
            assert(m == weight * HIDDEN_BIT + (lifted - HIDDEN_BIT));
            lemma_fundamental_div_mod_converse(
                m,
                HIDDEN_BIT as int,
                weight as int,
                (lifted - HIDDEN_BIT) as int,
            );
            assert(s.exponent() == weight);
            assert(s.significand() == lifted);
            lemma_pow2_adds(by as nat, (weight - 1) as nat);
            assert(lifted * pow2((weight - 1) as nat) == numerator * pow2((1074 - shift) as nat))
                by (nonlinear_arith)
                requires
                    lifted == numerator * pow2(by as nat),
                    pow2((1074 - shift) as nat) == pow2(by as nat) * pow2((weight - 1) as nat),
            ;
        }
        s
    }

    /// The same number with the opposite sign.
    pub fn neg(self) -> (s: Scalar)
        ensures
            s == self.negated(),
    {
        if self.bits >= SIGN_BIT {
            Scalar { bits: self.bits - SIGN_BIT }
        } else {
            Scalar { bits: self.bits + SIGN_BIT }
        }
    }
}

/// Of two finite numbers, the one with the smaller magnitude bits has the
/// smaller absolute value: ranks order the numbers as their values do.
pub proof fn lemma_magnitude_orders_units(a: Scalar, b: Scalar)
    requires
        a.finite(),
        b.finite(),
    ensures
        a.magnitude() < b.magnitude() <==> a.units() < b.units(),
        a.magnitude() == b.magnitude() <==> a.units() == b.units(),
{
    if a.magnitude() < b.magnitude() {
        lemma_units_increase(a, b);
    } else if b.magnitude() < a.magnitude() {
        lemma_units_increase(b, a);
    }
}

/// The smaller magnitude has the smaller absolute value.
proof fn lemma_units_increase(a: Scalar, b: Scalar)
    requires
        a.magnitude() < b.magnitude(),
    ensures
        a.units() < b.units(),
{
    let h = HIDDEN_BIT as int;
    let (ma, mb) = (a.magnitude() as int, b.magnitude() as int);
    lemma_fundamental_div_mod(ma, h);
    lemma_fundamental_div_mod(mb, h);
    let (ea, eb) = (a.exponent() as int, b.exponent() as int);
    assert(ea <= eb) by {
        lemma_div_is_ordered(ma, mb, h);
    }
    let (wa, wb) = ((a.weight() - 1) as nat, (b.weight() - 1) as nat);
    lemma_pow2_pos(wa);
    lemma_pow2_pos(wb);
    if ea == eb {
        assert(a.significand() < b.significand());
        lemma_mul_strict_inequality(
            a.significand() as int,
            b.significand() as int,
            pow2(wa) as int,
        );
    } else {
        assert(h * ea + h <= h * eb) by (nonlinear_arith)
            requires
                ea < eb,
                h > 0,
        ;
        if wa == wb {
            assert(a.significand() < b.significand());
            lemma_mul_strict_inequality(
                a.significand() as int,
                b.significand() as int,
                pow2(wa) as int,
            );
        } else {
            assert(wa < wb);
            assert(b.significand() >= h);
            assert(a.significand() < 2 * h);
            // a.units() < 2h * 2^wa = h * 2^(wa + 1) <= h * 2^wb <= b.units()
            lemma_mul_strict_inequality(a.significand() as int, 2 * h, pow2(wa) as int);
            lemma_pow2_unfold(wa + 1);
            assert(2 * h * pow2(wa) == h * pow2(wa + 1)) by (nonlinear_arith)
                requires
                    pow2(wa + 1) == 2 * pow2(wa),
            ;
            if wa + 1 < wb {
                lemma_pow2_strictly_increases(wa + 1, wb);
            }
            lemma_mul_left_inequality(h, pow2(wa + 1) as int, pow2(wb) as int);
            lemma_mul_inequality(h, b.significand() as int, pow2(wb) as int);
        }
    }
}

/// On finite numbers `lt` and `le` are the order of the values.
pub proof fn lemma_order_is_that_of_values(a: Scalar, b: Scalar)
    requires
        a.finite(),
        b.finite(),
    ensures
        a.lt(b) <==> a.signed_units() < b.signed_units(),
        a.le(b) <==> a.signed_units() <= b.signed_units(),
{
    let zero = Scalar::spec_zero();
    assert(zero.units() == 0) by {
        assert(zero.magnitude() == 0);
        assert(zero.significand() == 0);
        lemma_mul_basics(pow2(0) as int);
    }
    lemma_magnitude_orders_units(a, b);
    lemma_magnitude_orders_units(a, zero);
    lemma_magnitude_orders_units(b, zero);
}

/// The number 1 is 2^1074 units.
pub proof fn lemma_units_of_one()
    ensures
        Scalar::spec_one().units() == pow2(1074),
{
    let one = Scalar::spec_one();
    assert(one.magnitude() == 0x3ff0_0000_0000_0000);
    assert(one.exponent() == 1023 && one.fraction() == 0);
    lemma_pow2_adds(52, 1022);
    lemma2_to64_rest();
}

} // verus!
