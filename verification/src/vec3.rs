//! Triples of real components: points, directions and colours alike.
//!
//! Only what needs no rounding lives here: building a triple, reaching a
//! component by its index, turning a vector round, which flips three sign
//! bits, and drawing points of the unit ball and disk, where the test of a
//! candidate is a sum of squares of whole numbers.

use crate::random::{
    centre, centred, is_symmetric_fraction, is_unit_fraction, random, random_bits,
    symmetric_fraction,
};
use crate::scalar::{Scalar, HIDDEN_BIT};
use rand::rngs::StdRng;
use vstd::arithmetic::power2::*;
use vstd::prelude::*;

verus! {

/// A triple of real components.
#[derive(Clone, Copy, Debug, PartialEq, Eq, Structural)]
pub struct Vec3 {
    pub x: Scalar,
    pub y: Scalar,
    pub z: Scalar,
}

/// A point in space.
pub type Point3 = Vec3;

impl Vec3 {
    /// The component at `index`: `x` at 0, `y` at 1, `z` at 2.
    pub open spec fn component(self, index: int) -> Scalar
        recommends
            0 <= index < 3,
    {
        if index == 0 {
            self.x
        } else if index == 1 {
            self.y
        } else {
            self.z
        }
    }

    /// The triple with every sign bit flipped.
    pub open spec fn reversed(self) -> Vec3 {
        Vec3 { x: self.x.negated(), y: self.y.negated(), z: self.z.negated() }
    }

    /// Three positive zeros.
    pub open spec fn spec_zero() -> Vec3 {
        Vec3 { x: Scalar::spec_zero(), y: Scalar::spec_zero(), z: Scalar::spec_zero() }
    }

    /// Three ones.
    pub open spec fn spec_one() -> Vec3 {
        Vec3 { x: Scalar::spec_one(), y: Scalar::spec_one(), z: Scalar::spec_one() }
    }

    /// The triple of the three given components.
    pub fn new(x: Scalar, y: Scalar, z: Scalar) -> (v: Vec3)
        ensures
            v == (Vec3 { x, y, z }),
    {
        Vec3 { x, y, z }
    }

    /// The origin, and the colour black: three positive zeros.
    #[verifier::when_used_as_spec(spec_zero)]
    pub fn zero() -> (v: Vec3)
        ensures
            v == Vec3::spec_zero(),
    {
        Vec3 { x: Scalar::zero(), y: Scalar::zero(), z: Scalar::zero() }
    }

    /// The colour white: three ones.
    #[verifier::when_used_as_spec(spec_one)]
    pub fn one() -> (v: Vec3)
        ensures
            v == Vec3::spec_one(),
    {
        Vec3 { x: Scalar::one(), y: Scalar::one(), z: Scalar::one() }
    }

    /// Turns the vector round in place.
    pub fn reverse(&mut self)
        ensures
            *final(self) == old(self).reversed(),
    {
        self.x = self.x.neg();
        self.y = self.y.neg();
        self.z = self.z.neg();
    }

    /// The vector turned round.
    pub fn neg(&self) -> (v: Vec3)
        ensures
            v == self.reversed(),
    {
        Vec3 { x: self.x.neg(), y: self.y.neg(), z: self.z.neg() }
    }

    /// A unit vector on the side of a surface to which its normal points:
    /// `unit` itself where `along`, its dot product with the normal, is
    /// above zero, and `unit` turned round otherwise.
    pub fn random_unit_on_hemisphere(unit: Vec3, along: Scalar) -> (v: Vec3)
        ensures
            v == if Scalar::spec_zero().lt(along) {
                unit
            } else {
                unit.reversed()
            },
    {
        if Scalar::zero().lt(along) {
            unit
        } else {
            unit.neg()
        }
    }

    /// The component at `index`, which must be 0, 1 or 2. A caller that
    /// Verus has not seen and that asks for another index is stopped at
    /// once.
    pub fn index(&self, index: usize) -> (component: &Scalar)
        requires
            index < 3,
        ensures
            *component == self.component(index as int),
    {
        if index == 0 {
            &self.x
        } else if index == 1 {
            &self.y
        } else if index == 2 {
            &self.z
        } else {
            unreached()
        }
    }

    /// The component at `index`, which must be 0, 1 or 2, for writing: what
    /// is stored through the reference replaces that component and no other.
    /// A caller that Verus has not seen and that asks for another index is
    /// stopped at once.
    pub fn index_mut(&mut self, index: usize) -> (component: &mut Scalar)
        requires
            index < 3,
        ensures
            *component == old(self).component(index as int),
            final(self).component(index as int) == *final(component),
            forall|other: int|
                0 <= other < 3 && other != index ==> final(self).component(other) == old(
                    self,
                ).component(other),
    {
        if index == 0 {
            &mut self.x
        } else if index == 1 {
            &mut self.y
        } else if index == 2 {
            &mut self.z
        } else {
            unreached()
        }
    }
}

/// The square of 2^52: the sum of the squares of three centred numerators
/// stays below this exactly when the vector they stand for is shorter than 1.
pub const UNIT_SQUARE: u128 = 0x0100_0000_0000_0000_0000_0000_0000;

impl Vec3 {
    /// Whether every component is finite and the vector is shorter than 1:
    /// whether the squares of the components add up to less than 1, each
    /// component counted in units of 2^-1074.
    pub open spec fn inside_unit_ball(self) -> bool {
        &&& self.x.finite() && self.y.finite() && self.z.finite()
        &&& self.x.signed_units() * self.x.signed_units() + self.y.signed_units()
            * self.y.signed_units() + self.z.signed_units() * self.z.signed_units() < pow2(1074)
            * pow2(1074)
    }

    /// Whether `self` is the vector that three draws of 64 bits stand for:
    /// each component the number from -1 up to, not including, 1 of its bits.
    pub open spec fn stands_for(self, x_bits: u64, y_bits: u64, z_bits: u64) -> bool {
        &&& is_symmetric_fraction(self.x, x_bits)
        &&& is_symmetric_fraction(self.y, y_bits)
        &&& is_symmetric_fraction(self.z, z_bits)
    }

    /// Whether three draws of 64 bits stand for a point of the unit ball:
    /// whether the vector of their three numbers from -1 to 1 is shorter
    /// than 1.
    pub open spec fn accepts(x_bits: u64, y_bits: u64, z_bits: u64) -> bool {
        centred(x_bits) * centred(x_bits) + centred(y_bits) * centred(y_bits) + centred(z_bits)
            * centred(z_bits) < UNIT_SQUARE
    }

    /// Whether two draws of 64 bits stand for a point of the unit disk.
    pub open spec fn accepts_flat(x_bits: u64, y_bits: u64) -> bool {
        centred(x_bits) * centred(x_bits) + centred(y_bits) * centred(y_bits) < UNIT_SQUARE
    }

    /// Whether `self` is the flat vector that two draws of 64 bits stand for.
    pub open spec fn stands_flat_for(self, x_bits: u64, y_bits: u64) -> bool {
        &&& is_symmetric_fraction(self.x, x_bits)
        &&& is_symmetric_fraction(self.y, y_bits)
        &&& self.z == Scalar::spec_zero()
    }

    /// Whether `point` is what rejection sampling makes of `draws`: the
    /// vector that the first accepted triple stands for, and nothing where
    /// no triple is accepted.
    pub open spec fn is_first_in_unit_sphere(
        draws: Seq<(u64, u64, u64)>,
        point: Option<Vec3>,
    ) -> bool {
        match point {
            Some(v) => exists|at: int|
                {
                    &&& 0 <= at < draws.len()
                    &&& #[trigger] Self::accepts(draws[at].0, draws[at].1, draws[at].2)
                    &&& v.stands_for(draws[at].0, draws[at].1, draws[at].2)
                    &&& forall|before: int|
                        0 <= before < at ==> !#[trigger] Self::accepts(
                            draws[before].0,
                            draws[before].1,
                            draws[before].2,
                        )
                },
            None => forall|at: int|
                0 <= at < draws.len() ==> !#[trigger] Self::accepts(
                    draws[at].0,
                    draws[at].1,
                    draws[at].2,
                ),
        }
    }

    /// Whether `point` is what rejection sampling makes of `draws`, on the
    /// unit disk: the flat vector that the first accepted pair stands for,
    /// and nothing where no pair is accepted.
    pub open spec fn is_first_in_unit_disk(draws: Seq<(u64, u64)>, point: Option<Vec3>) -> bool {
        match point {
            Some(v) => exists|at: int|
                {
                    &&& 0 <= at < draws.len()
                    &&& #[trigger] Self::accepts_flat(draws[at].0, draws[at].1)
                    &&& v.stands_flat_for(draws[at].0, draws[at].1)
                    &&& forall|before: int|
                        0 <= before < at ==> !#[trigger] Self::accepts_flat(
                            draws[before].0,
                            draws[before].1,
                        )
                },
            None => forall|at: int|
                0 <= at < draws.len() ==> !#[trigger] Self::accepts_flat(draws[at].0, draws[at].1),
        }
    }

    /// A vector with every component drawn from 0 up to, not including, 1.
    pub fn random(rng: &mut StdRng) -> (v: Vec3)
        ensures
            exists|bits: u64| is_unit_fraction(v.x, bits),
            exists|bits: u64| is_unit_fraction(v.y, bits),
            exists|bits: u64| is_unit_fraction(v.z, bits),
            Scalar::spec_zero().le(v.x) && v.x.lt(Scalar::spec_one()),
            Scalar::spec_zero().le(v.y) && v.y.lt(Scalar::spec_one()),
            Scalar::spec_zero().le(v.z) && v.z.lt(Scalar::spec_one()),
    {
        let x: Scalar = random(rng);
        let y: Scalar = random(rng);
        let z: Scalar = random(rng);
        let v = Vec3 { x, y, z };
        proof {
            let bits = choose|bits: u64| is_unit_fraction(x, bits);
            assert(is_unit_fraction(v.x, bits));
            let bits = choose|bits: u64| is_unit_fraction(y, bits);
            assert(is_unit_fraction(v.y, bits));
            let bits = choose|bits: u64| is_unit_fraction(z, bits);
            assert(is_unit_fraction(v.z, bits));
        }
        v
    }

    /// The point of the unit ball that three draws of 64 bits stand for, if
    /// they stand for one: the vector of their three numbers from -1 to 1,
    /// provided that it is shorter than 1.
    pub fn in_unit_sphere(x_bits: u64, y_bits: u64, z_bits: u64) -> (point: Option<Vec3>)
        ensures
            point is Some <==> Self::accepts(x_bits, y_bits, z_bits),
            point matches Some(v) ==> v.stands_for(x_bits, y_bits, z_bits) && v.inside_unit_ball(),
    {
        let (cx, cy, cz) = (centre(x_bits), centre(y_bits), centre(z_bits));
        proof {
            let h = HIDDEN_BIT as int;
            assert(0 <= cx * cx <= h * h && 0 <= cy * cy <= h * h && 0 <= cz * cz <= h * h)
                by (nonlinear_arith)
                requires
                    -h <= cx <= h,
                    -h <= cy <= h,
                    -h <= cz <= h,
            ;
            assert(h * h == UNIT_SQUARE);
        }
        let sum: i128 = (cx as i128) * (cx as i128) + (cy as i128) * (cy as i128) + (cz as i128) * (
        cz as i128);
        if sum < UNIT_SQUARE as i128 {
            let v = Vec3 {
                x: symmetric_fraction(x_bits),
                y: symmetric_fraction(y_bits),
                z: symmetric_fraction(z_bits),
            };
            proof {
                let p = pow2(1022) as int;
                lemma2_to64_rest();
                lemma_pow2_adds(52, 1022);
                lemma_pow2_pos(1022);
                lemma_squares_scale(cx as int, cy as int, cz as int, p);
            }
            Some(v)
        } else {
            None
        }
    }

    /// The point of the unit disk in the plane of `x` and `y` that two draws
    /// of 64 bits stand for, if they stand for one.
    pub fn in_unit_disk(x_bits: u64, y_bits: u64) -> (point: Option<Vec3>)
        ensures
            point is Some <==> Self::accepts_flat(x_bits, y_bits),
            point matches Some(v) ==> v.stands_flat_for(x_bits, y_bits) && v.inside_unit_ball(),
    {
        let (cx, cy) = (centre(x_bits), centre(y_bits));
        proof {
            let h = HIDDEN_BIT as int;
            assert(0 <= cx * cx <= h * h && 0 <= cy * cy <= h * h) by (nonlinear_arith)
                requires
                    -h <= cx <= h,
                    -h <= cy <= h,
            ;
            assert(h * h == UNIT_SQUARE);
        }
        let sum: i128 = (cx as i128) * (cx as i128) + (cy as i128) * (cy as i128);
        if sum < UNIT_SQUARE as i128 {
            let v = Vec3 {
                x: symmetric_fraction(x_bits),
                y: symmetric_fraction(y_bits),
                z: Scalar::zero(),
            };
            proof {
                let p = pow2(1022) as int;
                lemma2_to64_rest();
                lemma_pow2_adds(52, 1022);
                lemma_pow2_pos(1022);
                assert(v.z.signed_units() == 0) by {
                    assert(v.z.magnitude() == 0);
                    assert(v.z.significand() == 0);
                    vstd::arithmetic::mul::lemma_mul_basics(pow2(0) as int);
                }
                lemma_squares_scale(cx as int, cy as int, 0, p);
            }
            Some(v)
        } else {
            None
        }
    }

    /// What rejection sampling makes of drawn triples: the point of the unit
    /// ball that the first accepted triple stands for, and nothing where no
    /// triple is accepted.
    pub fn first_in_unit_sphere(draws: &Vec<(u64, u64, u64)>) -> (point: Option<Vec3>)
        ensures
            Self::is_first_in_unit_sphere(draws@, point),
            point matches Some(v) ==> v.inside_unit_ball(),
    {
        let mut at: usize = 0;
        while at < draws.len()
            invariant
                at <= draws.len(),
                forall|before: int|
                    0 <= before < at ==> !#[trigger] Self::accepts(
                        draws[before].0,
                        draws[before].1,
                        draws[before].2,
                    ),
            decreases draws.len() - at,
        {
            let (x, y, z) = draws[at];
            let point: Option<Vec3> = Self::in_unit_sphere(x, y, z);
            if point.is_some() {
                assert(Self::accepts(draws[at as int].0, draws[at as int].1, draws[at as int].2));
                return point;
            }
            at = at + 1;
        }
        None
    }

    /// What rejection sampling makes of drawn pairs: the point of the unit
    /// disk that the first accepted pair stands for, and nothing where no
    /// pair is accepted.
    pub fn first_in_unit_disk(draws: &Vec<(u64, u64)>) -> (point: Option<Vec3>)
        ensures
            Self::is_first_in_unit_disk(draws@, point),
            point matches Some(v) ==> v.z == Scalar::spec_zero() && v.inside_unit_ball(),
    {
        let mut at: usize = 0;
        while at < draws.len()
            invariant
                at <= draws.len(),
                forall|before: int|
                    0 <= before < at ==> !#[trigger] Self::accepts_flat(
                        draws[before].0,
                        draws[before].1,
                    ),
            decreases draws.len() - at,
        {
            let (x, y) = draws[at];
            let point: Option<Vec3> = Self::in_unit_disk(x, y);
            if point.is_some() {
                assert(Self::accepts_flat(draws[at as int].0, draws[at as int].1));
                return point;
            }
            at = at + 1;
        }
        None
    }

    /// A point drawn from inside the unit ball: `attempts` triples of 64
    /// bits are drawn from `rng`, and the first of them that stands for a
    /// vector shorter than 1 gives the point; nothing if none of them does.
    pub fn random_in_unit_sphere(rng: &mut StdRng, attempts: u32) -> (point: Option<Vec3>)
        ensures
            exists|draws: Seq<(u64, u64, u64)>|
                draws.len() == attempts && #[trigger] Self::is_first_in_unit_sphere(draws, point),
            point matches Some(v) ==> v.inside_unit_ball(),
            attempts == 0 ==> point is None,
    {
        let mut draws: Vec<(u64, u64, u64)> = Vec::new();
        let mut drawn: u32 = 0;
        while drawn < attempts
            invariant
                drawn <= attempts,
                draws.len() == drawn,
            decreases attempts - drawn,
        {
            let x: u64 = random_bits(rng);
            let y: u64 = random_bits(rng);
            let z: u64 = random_bits(rng);
            draws.push((x, y, z));
            drawn = drawn + 1;
        }
        Self::first_in_unit_sphere(&draws)
    }

    /// A point drawn from inside the unit disk in the plane of `x` and `y`:
    /// `attempts` pairs of 64 bits are drawn from `rng`, and the first of
    /// them that stands for a vector shorter than 1 gives the point; nothing
    /// if none of them does.
    pub fn random_in_unit_disk(rng: &mut StdRng, attempts: u32) -> (point: Option<Vec3>)
        ensures
            exists|draws: Seq<(u64, u64)>|
                draws.len() == attempts && #[trigger] Self::is_first_in_unit_disk(draws, point),
            point matches Some(v) ==> v.z == Scalar::spec_zero() && v.inside_unit_ball(),
            attempts == 0 ==> point is None,
    {
        let mut draws: Vec<(u64, u64)> = Vec::new();
        let mut drawn: u32 = 0;
        while drawn < attempts
            invariant
                drawn <= attempts,
                draws.len() == drawn,
            decreases attempts - drawn,
        {
            let x: u64 = random_bits(rng);
            let y: u64 = random_bits(rng);
            draws.push((x, y));
            drawn = drawn + 1;
        }
        Self::first_in_unit_disk(&draws)
    }
}

/// Three numbers whose squares add up to less than the square of 2^52 keep
/// doing so, against the scaled bound, when all are scaled alike.
proof fn lemma_squares_scale(x: int, y: int, z: int, scale: int)
    requires
        x * x + y * y + z * z < HIDDEN_BIT * HIDDEN_BIT,
        scale > 0,
    ensures
        (x * scale) * (x * scale) + (y * scale) * (y * scale) + (z * scale) * (z * scale) < (
        HIDDEN_BIT * scale) * (HIDDEN_BIT * scale),
{
    let h = HIDDEN_BIT as int;
    let q = scale * scale;
    assert((x * scale) * (x * scale) == (x * x) * q) by (nonlinear_arith)
        requires
            q == scale * scale,
    ;
    assert((y * scale) * (y * scale) == (y * y) * q) by (nonlinear_arith)
        requires
            q == scale * scale,
    ;
    assert((z * scale) * (z * scale) == (z * z) * q) by (nonlinear_arith)
        requires
            q == scale * scale,
    ;
    assert((h * scale) * (h * scale) == (h * h) * q) by (nonlinear_arith)
        requires
            q == scale * scale,
    ;
    assert(q > 0) by (nonlinear_arith)
        requires
            q == scale * scale,
            scale > 0,
    ;
    let sum = x * x + y * y + z * z;
    vstd::arithmetic::mul::lemma_mul_strict_inequality(sum, h * h, q);
    assert(sum * q == (x * x) * q + (y * y) * q + (z * z) * q) by (nonlinear_arith)
        requires
            sum == x * x + y * y + z * z,
    ;
}

impl Default for Vec3 {
    /// The origin.
    fn default() -> (v: Vec3)
        ensures
            v == Vec3::spec_zero(),
    {
        Vec3::zero()
    }
}

} // verus!
