//! Colours, and the way from a colour in linear light to three 8-bit levels.
//!
//! A channel `c` of linear light is shown at the level `floor(256 * g)`,
//! where `g` is the square root of `c` (the gamma correction) held to at most
//! 0.999. That level is the largest `q` up to 255 with `(q / 256)^2 <= c`,
//! which is how it is stated and computed here: in whole numbers, from the
//! bits of `c`, with no rounding anywhere.

use crate::ppm::{pixel_line, push_pixel};
use crate::scalar::{lemma_magnitude_orders_units, lemma_units_of_one, Scalar, ONE_BITS};
use crate::vec3::Vec3;
use vstd::arithmetic::div_mod::*;
use vstd::arithmetic::mul::*;
use vstd::arithmetic::power2::*;
use vstd::bits::lemma_u64_shr_is_div;
use vstd::prelude::*;

verus! {

/// A colour: red, green and blue in `x`, `y` and `z`.
pub type Color = Vec3;

/// Whether the level `level` is not too bright for a channel above zero:
/// whether `(level / 256)^2 <= channel`. For a finite channel both sides are
/// counted in units of 2^-1074 and scaled by 65536.
pub open spec fn level_within(level: int, channel: Scalar) -> bool {
    !channel.finite() || level * level * pow2(1074) <= 65536 * channel.units()
}

/// Whether `level` is the level at which `channel` is shown: zero for a
/// channel that is not above zero (NaN is not), and else the largest level
/// up to 255 that is not too bright.
pub open spec fn is_level_of(level: int, channel: Scalar) -> bool {
    if Scalar::spec_zero().lt(channel) {
        &&& 0 <= level <= 255
        &&& level_within(level, channel)
        &&& level == 255 || !level_within(level + 1, channel)
    } else {
        level == 0
    }
}

/// The level at which `channel` is shown.
pub open spec fn level_of(channel: Scalar) -> u8 {
    choose|level: u8| is_level_of(level as int, channel)
}

/// The three levels of a colour, as a line of text.
pub open spec fn color_line(color: Color) -> Seq<u8> {
    pixel_line(level_of(color.x), level_of(color.y), level_of(color.z))
}

/// A channel has one level only.
pub proof fn lemma_level_is_unique(channel: Scalar, a: int, b: int)
    requires
        is_level_of(a, channel),
        is_level_of(b, channel),
    ensures
        a == b,
{
    if Scalar::spec_zero().lt(channel) && channel.finite() {
        let p = pow2(1074) as int;
        lemma_pow2_pos(1074);
        if a < b {
            assert((a + 1) * (a + 1) * p <= b * b * p) by (nonlinear_arith)
                requires
                    0 <= a < b,
                    p > 0,
            ;
        } else if b < a {
            assert((b + 1) * (b + 1) * p <= a * a * p) by (nonlinear_arith)
                requires
                    0 <= b < a,
                    p > 0,
            ;
        }
    }
}

/// The brightest of the levels up to `top` that is not too bright for a
/// channel.
proof fn lemma_brightest_below(channel: Scalar, top: int) -> (level: int)
    requires
        0 <= top <= 255,
    ensures
        0 <= level <= top,
        level_within(level, channel),
        level == top || !level_within(level + 1, channel),
    decreases top,
{
    if level_within(top, channel) {
        top
    } else {
        assert(top > 0) by {
            lemma_mul_basics(pow2(1074) as int);
        }
        lemma_brightest_below(channel, top - 1)
    }
}

/// Every channel has a level, so that `level_of` is the level of the channel.
pub proof fn lemma_level_exists(channel: Scalar)
    ensures
        is_level_of(level_of(channel) as int, channel),
{
    let level = if Scalar::spec_zero().lt(channel) {
        lemma_brightest_below(channel, 255)
    } else {
        0
    };
    assert(is_level_of((level as u8) as int, channel));
}

/// The brighter channel is shown at the higher level, or at the same.
pub proof fn lemma_level_is_monotone(darker: Scalar, brighter: Scalar)
    requires
        darker.le(brighter),
    ensures
        level_of(darker) <= level_of(brighter),
{
    lemma_level_exists(darker);
    lemma_level_exists(brighter);
    let (low, high) = (level_of(darker) as int, level_of(brighter) as int);
    if Scalar::spec_zero().lt(darker) && brighter.finite() && high < low {
        let p = pow2(1074) as int;
        lemma_pow2_pos(1074);
        lemma_magnitude_orders_units(darker, brighter);
        assert((high + 1) * (high + 1) * p <= low * low * p) by (nonlinear_arith)
            requires
                0 <= high < low,
                p > 0,
        ;
    }
}

/// The whole part of 65536 times a number below 1 in absolute value.
fn sixteen_bit_floor(channel: Scalar) -> (x: u64)
    requires
        channel.magnitude() < ONE_BITS,
    ensures
        x * pow2(1074) <= 65536 * channel.units() < (x + 1) * pow2(1074),
        x < 65536,
{
    let (significand, weight) = channel.decode();
    proof {
        lemma_magnitude_orders_units(channel, Scalar::spec_one());
        lemma_units_of_one();
        assert(channel.magnitude() / (crate::scalar::HIDDEN_BIT as nat) <= 1022);
    }
    let shift: u32 = 1059 - weight;
    let x: u64 = if shift >= 64 {
        0
    } else {
        significand >> shift
    };
    proof {
        let s = shift as nat;
        let low = (weight + 15) as nat;
        let ps = pow2(s) as int;
        let pl = pow2(low) as int;
        let sig = significand as int;
        lemma_pow2_pos(s);
        lemma_pow2_pos(low);
        lemma_pow2_adds(low, s);
        lemma_pow2_adds((weight - 1) as nat, 16);
        lemma2_to64();
        assert(pow2(16) == 65536);
        assert(x == sig / ps) by {
            if shift >= 64 {
                lemma2_to64_rest();
                lemma_pow2_strictly_increases(53, s);
                lemma_basic_div(sig, ps);
            } else {
                lemma_u64_shr_is_div(significand, shift as u64);
            }
        }
        lemma_fundamental_div_mod(sig, ps);
        lemma_mod_bound(sig, ps);
        let r = sig % ps;
        let w1 = pow2((weight - 1) as nat) as int;
        assert(65536 * channel.units() == sig * pl) by (nonlinear_arith)
            requires
                channel.units() == sig * w1,
                pl == w1 * 65536,
        ;
        assert(sig * pl == x * (pl * ps) + r * pl) by (nonlinear_arith)
            requires
                sig == ps * x + r,
        ;
        assert(0 <= r * pl < ps * pl) by (nonlinear_arith)
            requires
                0 <= r < ps,
                pl > 0,
        ;
        assert(pl * ps == pow2(1074));
        let p = pow2(1074) as int;
        assert(x * p <= 65536 * channel.units() < (x + 1) * p) by (nonlinear_arith)
            requires
                65536 * channel.units() == x * (pl * ps) + r * pl,
                0 <= r * pl < ps * pl,
                pl * ps == p,
        ;
        assert(x < 65536) by (nonlinear_arith)
            requires
                x * p <= 65536 * channel.units(),
                channel.units() < p,
                p > 0,
        ;
    }
    x
}

/// The square of a number up to 256.
fn square(q: u64) -> (s: u64)
    requires
        q <= 256,
    ensures
        s == q * q,
{
    assert(q * q <= 65536) by (nonlinear_arith)
        requires
            q <= 256,
    ;
    q * q
}

/// The level at which a channel of linear light is shown.
///
/// A channel that is not above zero, NaN among them, is shown at 0, and a
/// channel of 1 or more at 255. Between the two the level is the largest
/// `q` with `(q / 256)^2 <= channel`: the whole part of 256 times the
/// channel's square root.
pub fn quantize(channel: Scalar) -> (level: u8)
    ensures
        is_level_of(level as int, channel),
        level == level_of(channel),
{
    let level: u8 = if !Scalar::zero().lt(channel) {
        0
    } else if channel.to_bits() >= ONE_BITS {
        proof {
            if channel.finite() {
                lemma_magnitude_orders_units(Scalar::spec_one(), channel);
                lemma_units_of_one();
                let p = pow2(1074) as int;
                assert(255 * 255 * p <= 65536 * channel.units()) by (nonlinear_arith)
                    requires
                        p <= channel.units(),
                        p >= 0,
                ;
            }
        }
        255
    } else {
        let x: u64 = sixteen_bit_floor(channel);
        let mut q: u64 = 0;
        while square(q + 1) <= x
            invariant
                q * q <= x,
                x < 65536,
                q < 256,
            decreases 256 - q,
        {
            q = q + 1;
            assert(q < 256) by (nonlinear_arith)
                requires
                    q * q <= x,
                    x < 65536,
            ;
        }
        proof {
            let p = pow2(1074) as int;
            let u = 65536 * channel.units();
            lemma_pow2_pos(1074);
            assert(q * q * p <= u) by (nonlinear_arith)
                requires
                    q * q <= x,
                    x * p <= u,
                    p > 0,
            ;
            assert((q + 1) * (q + 1) * p > u) by (nonlinear_arith)
                requires
                    (q + 1) * (q + 1) >= x + 1,
                    u < (x + 1) * p,
                    p > 0,
            ;
        }
        q as u8
    };
    proof {
        lemma_level_exists(channel);
        lemma_level_is_unique(channel, level as int, level_of(channel) as int);
    }
    level
}

/// Appends the line of text for one pixel to `out`: the levels of red, green
/// and blue in decimal, a space between them and a line feed behind.
pub fn write_color(color: &Color, out: &mut Vec<u8>)
    ensures
        final(out)@ == old(out)@ + color_line(*color),
{
    let red: u8 = quantize(color.x);
    let green: u8 = quantize(color.y);
    let blue: u8 = quantize(color.z);
    push_pixel(out, red, green, blue);
}

} // verus!
