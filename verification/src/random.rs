//! Random draws.
//!
//! The chance comes from the standard generator of the `rand` crate, 64 bits
//! at a time. What is made of the bits is whole-number work: a draw takes the
//! upper 53 of them as a numerator over a power of two, which is a double
//! without any rounding.

use crate::scalar::{lemma_magnitude_orders_units, lemma_units_of_one, Scalar, HIDDEN_BIT};
use crate::vec3::Vec3;
use rand::rngs::StdRng;
use rand::RngCore;
use vstd::arithmetic::mul::*;
use vstd::arithmetic::power2::*;
use vstd::prelude::*;

verus! {

/// The standard generator of `rand`, `rand::rngs::StdRng`: handed through
/// to `random_bits` and never looked into.
#[verifier::external_type_specification]
#[verifier::external_body]
pub struct ExStdRng(StdRng);

/// The next 64 bits of the generator: `RngCore::next_u64` of `rand`, on its
/// standard generator. Nothing is claimed of the bits.
#[verifier::external_body]
pub(crate) fn random_bits(rng: &mut StdRng) -> (bits: u64) {
    rng.next_u64()
}

/// The pattern of one half.
pub const HALF_BITS: u64 = 0x3fe0_0000_0000_0000;

/// The number one half.
pub open spec fn half() -> Scalar {
    Scalar { bits: HALF_BITS }
}

/// The upper 53 of 64 bits, as a number.
pub open spec fn numerator(bits: u64) -> nat {
    bits as nat / 2048
}

/// The upper 53 of 64 bits, less 2^52: a number from -2^52 up to, not
/// including, 2^52.
pub open spec fn centred(bits: u64) -> int {
    numerator(bits) - HIDDEN_BIT
}

/// Whether `draw` is the number from 0 up to, not including, 1 that `bits`
/// stand for: their upper 53 over 2^53.
pub open spec fn is_unit_fraction(draw: Scalar, bits: u64) -> bool {
    &&& draw.finite()
    &&& !draw.negative()
    &&& draw.units() == numerator(bits) * pow2(1021)
}

/// Whether `draw` is the number from -1/2 up to, not including, 1/2 that
/// `bits` stand for: their unit fraction less one half.
pub open spec fn is_centred_fraction(draw: Scalar, bits: u64) -> bool {
    &&& draw.finite()
    &&& draw.negative() == (centred(bits) < 0)
    &&& draw.signed_units() == centred(bits) * pow2(1021)
}

/// Whether `draw` is the number from -1 up to, not including, 1 that `bits`
/// stand for: twice their centred fraction.
pub open spec fn is_symmetric_fraction(draw: Scalar, bits: u64) -> bool {
    &&& draw.finite()
    &&& draw.negative() == (centred(bits) < 0)
    &&& draw.signed_units() == centred(bits) * pow2(1022)
}

/// A finite number is settled by its sign and its units.
pub proof fn lemma_units_settle_the_number(a: Scalar, b: Scalar)
    requires
        a.finite(),
        b.finite(),
        a.negative() == b.negative(),
        a.units() == b.units(),
    ensures
        a == b,
{
    lemma_magnitude_orders_units(a, b);
}

/// The upper 53 of 64 bits, as a number.
fn upper_bits(bits: u64) -> (n: u64)
    ensures
        n == numerator(bits),
        n < 2 * HIDDEN_BIT,
{
    let n: u64 = bits >> 11;
    assert(n == bits / 2048 && n < 0x0020_0000_0000_0000) by (bit_vector)
        requires
            n == bits >> 11,
    ;
    n
}

/// The upper 53 of 64 bits, less 2^52.
pub fn centre(bits: u64) -> (c: i64)
    ensures
        c == centred(bits),
        -(HIDDEN_BIT as int) <= c < HIDDEN_BIT,
{
    let n: u64 = upper_bits(bits);
    n as i64 - HIDDEN_BIT as i64
}

/// The number from 0 up to, not including, 1 that 64 bits stand for.
pub fn unit_fraction(bits: u64) -> (draw: Scalar)
    ensures
        is_unit_fraction(draw, bits),
        Scalar::spec_zero().le(draw),
        draw.lt(Scalar::spec_one()),
{
    let draw: Scalar = Scalar::dyadic(false, upper_bits(bits), 53);
    proof {
        lemma_units_of_one();
        lemma_pow2_adds(53, 1021);
        lemma2_to64_rest();
        lemma_pow2_pos(1021);
        lemma_mul_strict_inequality(
            numerator(bits) as int,
            pow2(53) as int,
            pow2(1021) as int,
        );
        lemma_magnitude_orders_units(draw, Scalar::spec_one());
    }
    draw
}

/// A whole number from -2^52 up to, not including, 2^52, over a power of
/// two.
fn centred_over(bits: u64, shift: u32) -> (draw: Scalar)
    requires
        52 <= shift <= 53,
    ensures
        draw.finite(),
        draw.negative() == (centred(bits) < 0),
        draw.signed_units() == centred(bits) * pow2((1074 - shift) as nat),
        draw.units() <= pow2((1126 - shift) as nat),
        !draw.negative() ==> draw.units() < pow2((1126 - shift) as nat),
{
    let n: u64 = upper_bits(bits);
    let scale = Ghost(pow2((1074 - shift) as nat) as int);
    let draw: Scalar = if n >= HIDDEN_BIT {
        Scalar::dyadic(false, n - HIDDEN_BIT, shift)
    } else {
        assert(-((HIDDEN_BIT - n) * scale@) == (n - HIDDEN_BIT) * scale@) by (nonlinear_arith);
        Scalar::dyadic(true, HIDDEN_BIT - n, shift)
    };
    proof {
        lemma2_to64_rest();
        lemma_pow2_pos((1074 - shift) as nat);
        lemma_pow2_adds(52, (1074 - shift) as nat);
        if n >= HIDDEN_BIT {
            lemma_mul_strict_inequality(n - HIDDEN_BIT, pow2(52) as int, scale@);
        } else {
            lemma_mul_inequality(HIDDEN_BIT - n, pow2(52) as int, scale@);
        }
    }
    draw
}

/// One half is 2^1073 units.
proof fn lemma_units_of_half()
    ensures
        half().units() == pow2(1073),
        half().finite(),
        !half().negative(),
{
    assert(half().magnitude() == 0x3fe0_0000_0000_0000);
    assert(half().exponent() == 1022 && half().fraction() == 0);
    lemma_pow2_adds(52, 1021);
    lemma2_to64_rest();
}

/// The number from -1/2 up to, not including, 1/2 that 64 bits stand for.
pub fn centred_fraction(bits: u64) -> (draw: Scalar)
    ensures
        is_centred_fraction(draw, bits),
        half().negated().le(draw),
        draw.lt(half()),
{
    let draw: Scalar = centred_over(bits, 53);
    proof {
        lemma_units_of_half();
        lemma_magnitude_orders_units(draw, half());
    }
    draw
}

/// The number from -1 up to, not including, 1 that 64 bits stand for.
pub fn symmetric_fraction(bits: u64) -> (draw: Scalar)
    ensures
        is_symmetric_fraction(draw, bits),
        Scalar::spec_one().negated().le(draw),
        draw.lt(Scalar::spec_one()),
{
    let draw: Scalar = centred_over(bits, 52);
    proof {
        lemma_units_of_one();
        lemma_magnitude_orders_units(draw, Scalar::spec_one());
    }
    draw
}

/// A number drawn from 0 up to, not including, 1: the unit fraction of the
/// generator's next 64 bits.
pub fn random(rng: &mut StdRng) -> (draw: Scalar)
    ensures
        exists|bits: u64| is_unit_fraction(draw, bits),
        Scalar::spec_zero().le(draw),
        draw.lt(Scalar::spec_one()),
{
    let bits: u64 = random_bits(rng);
    unit_fraction(bits)
}

/// A number drawn from -1 up to, not including, 1: the symmetric fraction
/// of the generator's next 64 bits.
pub fn random_symmetric(rng: &mut StdRng) -> (draw: Scalar)
    ensures
        exists|bits: u64| is_symmetric_fraction(draw, bits),
        Scalar::spec_one().negated().le(draw),
        draw.lt(Scalar::spec_one()),
{
    let bits: u64 = random_bits(rng);
    symmetric_fraction(bits)
}

/// The vector to a random point of the square from (-1/2, -1/2) to
/// (1/2, 1/2) in the plane of `x` and `y`: the centred fractions of the
/// generator's next 64 bits, and of the 64 after them.
pub fn sample_square(rng: &mut StdRng) -> (offset: Vec3)
    ensures
        offset.z == Scalar::spec_zero(),
        exists|bits: u64| is_centred_fraction(offset.x, bits),
        exists|bits: u64| is_centred_fraction(offset.y, bits),
        half().negated().le(offset.x) && offset.x.lt(half()),
        half().negated().le(offset.y) && offset.y.lt(half()),
{
    let first: u64 = random_bits(rng);
    let x: Scalar = centred_fraction(first);
    let second: u64 = random_bits(rng);
    let y: Scalar = centred_fraction(second);
    let offset: Vec3 = Vec3::new(x, y, Scalar::zero());
    assert(is_centred_fraction(offset.x, first) && is_centred_fraction(offset.y, second));
    offset
}

} // verus!
