//! Surface materials, and what each makes of a ray that hits it.
//!
//! A material answers a hit with a new ray and the colour by which light
//! coming back along that ray is multiplied, or with nothing when the ray is
//! absorbed. The directions themselves are sums and products of reals and are
//! worked out by the caller; the rules that pick between them are here.

use crate::color::Color;
use crate::hit::hittable::HitRecord;
use crate::random::random;
use crate::ray::Ray;
use crate::scalar::Scalar;
use crate::vec3::Vec3;
use rand::rngs::StdRng;
use vstd::prelude::*;
use vstd::std_specs::convert::FromSpecImpl;

verus! {

/// The pattern of 1e-8: a direction whose components' absolute values sum to
/// less than this counts as no direction at all.
pub const NEAR_ZERO_BITS: u64 = 0x3e45_798e_e230_8c3a;

/// The bound on a direction's spread is the double nearest to 1e-8: it is
/// its significand over 2^79, and 10^8 times that significand misses 2^79 by
/// less than half of 10^8, half a step of the significand.
pub proof fn lemma_near_zero_is_a_hundred_millionth()
    ensures
        (Scalar { bits: NEAR_ZERO_BITS }).weight() == 1075 - 79,
        -50_000_000 <= 100_000_000 * (Scalar { bits: NEAR_ZERO_BITS }).significand()
            - 0x8000_0000_0000_0000_0000 <= 50_000_000,
{
    let bound = Scalar { bits: NEAR_ZERO_BITS };
    assert(bound.magnitude() == 0x3e45_798e_e230_8c3a);
    assert(bound.exponent() == 996 && bound.fraction() == 0x0005_798e_e230_8c3a);
}

/// A scattered ray and the colour that multiplies the light it brings back.
#[derive(Clone, Copy, Debug, PartialEq, Eq, Structural)]
pub struct Scatter {
    pub attenuation: Color,
    pub ray: Ray,
}

/// The materials a surface can be made of.
#[derive(Clone, Copy, Debug, PartialEq, Eq, Structural)]
pub enum Material {
    Dielectric(Dielectric),
    Lambertian(Lambertian),
    Metal(Metal),
}

impl Material {
    /// What the material of a hit makes of the hit, by the rule of that
    /// material.
    pub open spec fn scattered(hit_record: HitRecord, direction: Vec3, measure: Scalar) -> Option<
        Scatter,
    > {
        match hit_record.material {
            Material::Dielectric(_) => Dielectric::scattered(hit_record, direction),
            Material::Lambertian(lambertian) => lambertian.scattered(
                hit_record,
                direction,
                measure,
            ),
            Material::Metal(metal) => metal.scattered(hit_record, direction, measure),
        }
    }

    /// Scatters a hit by the rule of the material that was hit.
    ///
    /// `direction` and `measure` are what the caller worked out for that
    /// material. For a diffuse surface they are the candidate direction and
    /// its spread; for a mirror, the blurred mirrored direction and its dot
    /// product with the hit's normal; for a clear material, the mirrored or
    /// bent direction, and the measure is not looked at.
    pub fn scatter(hit_record: &HitRecord, direction: Vec3, measure: Scalar) -> (scatter: Option<
        Scatter,
    >)
        ensures
            scatter == Self::scattered(*hit_record, direction, measure),
    {
        match hit_record.material {
            Material::Dielectric(dielectric) => dielectric.scatter(hit_record, direction),
            Material::Lambertian(lambertian) => lambertian.scatter(hit_record, direction, measure),
            Material::Metal(metal) => metal.scatter(hit_record, direction, measure),
        }
    }
}

impl From<Lambertian> for Material {
    fn from(value: Lambertian) -> (material: Material) {
        Material::Lambertian(value)
    }
}

impl FromSpecImpl<Lambertian> for Material {
    open spec fn obeys_from_spec() -> bool {
        true
    }

    open spec fn from_spec(value: Lambertian) -> Material {
        Material::Lambertian(value)
    }
}

impl From<Metal> for Material {
    fn from(value: Metal) -> (material: Material) {
        Material::Metal(value)
    }
}

impl FromSpecImpl<Metal> for Material {
    open spec fn obeys_from_spec() -> bool {
        true
    }

    open spec fn from_spec(value: Metal) -> Material {
        Material::Metal(value)
    }
}

impl From<Dielectric> for Material {
    fn from(value: Dielectric) -> (material: Material) {
        Material::Dielectric(value)
    }
}

impl FromSpecImpl<Dielectric> for Material {
    open spec fn obeys_from_spec() -> bool {
        true
    }

    open spec fn from_spec(value: Dielectric) -> Material {
        Material::Dielectric(value)
    }
}

/// A diffuse surface.
#[derive(Clone, Copy, Debug, PartialEq, Eq, Structural)]
pub struct Lambertian {
    albedo: Color,
}

impl Lambertian {
    /// The surface's own colour.
    pub closed spec fn spec_albedo(&self) -> Color {
        self.albedo
    }

    /// The direction in which a diffuse hit scatters: the candidate, unless
    /// its `spread` (the sum of the absolute values of its components) is
    /// below 1e-8, in which case the normal stands in for it.
    pub open spec fn direction_or_normal(normal: Vec3, candidate: Vec3, spread: Scalar) -> Vec3 {
        if spread.lt(Scalar { bits: NEAR_ZERO_BITS }) {
            normal
        } else {
            candidate
        }
    }

    /// What a diffuse surface makes of a hit: it never absorbs; the new ray
    /// leaves the hit point along the candidate, or along the normal where
    /// the candidate is degenerate, and carries the surface's colour.
    pub open spec fn scattered(&self, hit_record: HitRecord, candidate: Vec3, spread: Scalar)
        -> Option<Scatter> {
        Some(
            Scatter {
                attenuation: self.albedo(),
                ray: Ray {
                    origin: hit_record.point,
                    direction: Self::direction_or_normal(hit_record.normal, candidate, spread),
                },
            },
        )
    }

    /// A diffuse surface of the given colour.
    pub fn new(albedo: Color) -> (lambertian: Lambertian)
        ensures
            lambertian.albedo() == albedo,
    {
        Lambertian { albedo }
    }

    /// The surface's own colour.
    #[verifier::when_used_as_spec(spec_albedo)]
    pub fn albedo(&self) -> (albedo: Color)
        ensures
            albedo == self.spec_albedo(),
    {
        self.albedo
    }

    /// Scatters a hit. `candidate` is the hit's normal plus a random unit
    /// vector, `spread` the sum of the absolute values of its components.
    ///
    /// A diffuse surface never absorbs: the new ray leaves the hit point
    /// along the candidate, or along the normal where the candidate is
    /// degenerate, and carries the surface's colour.
    pub fn scatter(&self, hit_record: &HitRecord, candidate: Vec3, spread: Scalar) -> (scatter:
        Option<Scatter>)
        ensures
            scatter == self.scattered(*hit_record, candidate, spread),
    {
        let direction: Vec3 = if spread.lt(Scalar::from_bits(NEAR_ZERO_BITS)) {
            hit_record.normal
        } else {
            candidate
        };
        Some(Scatter { attenuation: self.albedo, ray: Ray::new(hit_record.point, direction) })
    }
}

/// A mirror, blurred by `fuzz`, which always lies between 0 and 1.
#[derive(Clone, Copy, Debug, PartialEq, Eq, Structural)]
pub struct Metal {
    albedo: Color,
    fuzz: Scalar,
}

impl Metal {
    #[verifier::type_invariant]
    spec fn fuzz_in_unit_range(self) -> bool {
        Scalar::spec_zero().le(self.fuzz) && self.fuzz.le(Scalar::spec_one())
    }

    /// The surface's own colour.
    pub closed spec fn spec_albedo(&self) -> Color {
        self.albedo
    }

    /// The blur of the mirror.
    pub closed spec fn spec_fuzz(&self) -> Scalar {
        self.fuzz
    }

    /// The blur that a requested blur stands for: 1 for a request above 1 or
    /// not a number, 0 for one below 0, the request itself otherwise.
    pub open spec fn clamped_fuzz(fuzz: Scalar) -> Scalar {
        if fuzz.nan() || Scalar::spec_one().lt(fuzz) {
            Scalar::spec_one()
        } else if fuzz.lt(Scalar::spec_zero()) {
            Scalar::spec_zero()
        } else {
            fuzz
        }
    }

    /// What a mirror makes of a hit: the ray is scattered along `direction`
    /// with the mirror's colour exactly when the direction leaves the
    /// surface, that is when `leaving` is above zero; otherwise it is
    /// absorbed.
    pub open spec fn scattered(&self, hit_record: HitRecord, direction: Vec3, leaving: Scalar)
        -> Option<Scatter> {
        if Scalar::spec_zero().lt(leaving) {
            Some(
                Scatter {
                    attenuation: self.albedo(),
                    ray: Ray { origin: hit_record.point, direction },
                },
            )
        } else {
            None
        }
    }

    /// A mirror of the given colour, with the blur clamped into 0 to 1.
    pub fn new(albedo: Color, fuzz: Scalar) -> (metal: Metal)
        ensures
            metal.albedo() == albedo,
            metal.fuzz() == Self::clamped_fuzz(fuzz),
    {
        let fuzz: Scalar = if fuzz.is_nan() || Scalar::one().lt(fuzz) {
            Scalar::one()
        } else if fuzz.lt(Scalar::zero()) {
            Scalar::zero()
        } else {
            fuzz
        };
        Metal { albedo, fuzz }
    }

    /// The surface's own colour.
    #[verifier::when_used_as_spec(spec_albedo)]
    pub fn albedo(&self) -> (albedo: Color)
        ensures
            albedo == self.spec_albedo(),
    {
        self.albedo
    }

    /// The blur of the mirror, between 0 and 1.
    #[verifier::when_used_as_spec(spec_fuzz)]
    pub fn fuzz(&self) -> (fuzz: Scalar)
        ensures
            fuzz == self.spec_fuzz(),
            Scalar::spec_zero().le(fuzz),
            fuzz.le(Scalar::spec_one()),
    {
        proof {
            use_type_invariant(self);
        }
        self.fuzz
    }

    /// Scatters a hit. `direction` is the mirrored direction of the incoming
    /// ray, blurred, and `leaving` its dot product with the hit's normal.
    ///
    /// The ray is scattered exactly when the direction leaves the surface,
    /// that is when `leaving` is above zero; otherwise it is absorbed.
    pub fn scatter(&self, hit_record: &HitRecord, direction: Vec3, leaving: Scalar) -> (scatter:
        Option<Scatter>)
        ensures
            scatter == self.scattered(*hit_record, direction, leaving),
    {
        if Scalar::zero().lt(leaving) {
            Some(Scatter { attenuation: self.albedo, ray: Ray::new(hit_record.point, direction) })
        } else {
            None
        }
    }
}

/// A clear material such as glass, which bends light by its refractive index.
#[derive(Clone, Copy, Debug, PartialEq, Eq, Structural)]
pub struct Dielectric {
    refraction_index: Scalar,
}

impl Dielectric {
    /// The refractive index, relative to the medium around the material.
    pub closed spec fn spec_index(&self) -> Scalar {
        self.refraction_index
    }

    /// Whether a ray is mirrored rather than bent.
    ///
    /// `sine_ratio` is the sine of the angle of incidence times the ratio of
    /// the refractive indices. Above 1 there is no bent ray and the surface
    /// mirrors. Otherwise the surface mirrors with probability `reflectance`:
    /// it does when `draw`, a number drawn uniformly from 0 to 1, falls below
    /// it.
    pub open spec fn spec_reflects(sine_ratio: Scalar, reflectance: Scalar, draw: Scalar) -> bool {
        Scalar::spec_one().lt(sine_ratio) || draw.lt(reflectance)
    }

    /// What a clear material makes of a hit: it never absorbs and takes
    /// nothing from the light; the new ray leaves the hit point along
    /// `direction` and carries white.
    pub open spec fn scattered(hit_record: HitRecord, direction: Vec3) -> Option<Scatter> {
        Some(
            Scatter {
                attenuation: Color::spec_one(),
                ray: Ray { origin: hit_record.point, direction },
            },
        )
    }

    /// A clear material with the given refractive index.
    pub fn new(refraction_index: Scalar) -> (dielectric: Dielectric)
        ensures
            dielectric.index() == refraction_index,
    {
        Dielectric { refraction_index }
    }

    /// The refractive index.
    #[verifier::when_used_as_spec(spec_index)]
    pub fn index(&self) -> (index: Scalar)
        ensures
            index == self.spec_index(),
    {
        self.refraction_index
    }

    /// Whether a ray is mirrored rather than bent.
    #[verifier::when_used_as_spec(spec_reflects)]
    pub fn reflects(sine_ratio: Scalar, reflectance: Scalar, draw: Scalar) -> (mirrored: bool)
        ensures
            mirrored == Self::spec_reflects(sine_ratio, reflectance, draw),
    {
        Scalar::one().lt(sine_ratio) || draw.lt(reflectance)
    }

    /// Whether a ray is mirrored rather than bent, by a number drawn from
    /// `rng` where chance decides: beyond the critical angle the surface
    /// mirrors and nothing is drawn; else it mirrors when a draw from 0 up
    /// to, not including, 1 falls below the reflectance.
    ///
    /// So a surface whose reflectance is not above zero never mirrors below
    /// the critical angle, and one whose reflectance is 1 or more always
    /// mirrors.
    pub fn reflects_by_chance(rng: &mut StdRng, sine_ratio: Scalar, reflectance: Scalar) -> (mirrored:
        bool)
        ensures
            exists|draw: Scalar|
                Scalar::spec_zero().le(draw) && draw.lt(Scalar::spec_one()) && mirrored
                    == #[trigger] Self::spec_reflects(sine_ratio, reflectance, draw),
            Scalar::spec_one().lt(sine_ratio) ==> mirrored,
            !Scalar::spec_one().lt(sine_ratio) && !Scalar::spec_zero().lt(reflectance)
                ==> !mirrored,
            Scalar::spec_one().le(reflectance) ==> mirrored,
    {
        if Scalar::one().lt(sine_ratio) {
            assert(Self::spec_reflects(sine_ratio, reflectance, Scalar::spec_zero()));
            true
        } else {
            let draw: Scalar = random(rng);
            let mirrored: bool = draw.lt(reflectance);
            assert(mirrored == Self::spec_reflects(sine_ratio, reflectance, draw));
            mirrored
        }
    }

    /// Scatters a hit along `direction`, the mirrored or the bent direction
    /// as `reflects` decided.
    ///
    /// A clear material never absorbs and takes nothing from the light: the
    /// new ray leaves the hit point and carries white.
    pub fn scatter(&self, hit_record: &HitRecord, direction: Vec3) -> (scatter: Option<Scatter>)
        ensures
            scatter == Self::scattered(*hit_record, direction),
    {
        Some(Scatter { attenuation: Color::one(), ray: Ray::new(hit_record.point, direction) })
    }
}

/// A surface that reflects nothing and is met below the critical angle bends
/// every ray, whatever is drawn from 0 to 1.
pub proof fn lemma_no_reflectance_always_bends(sine_ratio: Scalar, reflectance: Scalar, draw: Scalar)
    requires
        !Scalar::spec_one().lt(sine_ratio),
        reflectance.rank() == 0,
        Scalar::spec_zero().le(draw),
    ensures
        !Dielectric::spec_reflects(sine_ratio, reflectance, draw),
{
}

} // verus!
