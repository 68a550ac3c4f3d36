//! The camera: its settings, each held to its bounds once and for all, and
//! the size of the image that follows from them. What the camera does with a scene is in the modules
//! below: the path of one ray, and the image as text.

pub mod path;
pub mod render;
pub mod repeat;

use crate::scalar::Scalar;
use crate::vec3::{Point3, Vec3};
use vstd::arithmetic::div_mod::*;
use vstd::arithmetic::mul::*;
use vstd::arithmetic::power2::*;
use vstd::prelude::*;

verus! {

/// The pattern of 180, the bound of the field of view in degrees.
pub const HALF_TURN_BITS: u64 = 0x4066_8000_0000_0000;

/// The bound of the field of view is 180 on the nose: its significand over
/// 2^45.
pub proof fn lemma_half_turn_is_180()
    ensures
        (Scalar { bits: HALF_TURN_BITS }).weight() == 1075 - 45,
        (Scalar { bits: HALF_TURN_BITS }).significand() == 180 * 0x2000_0000_0000,
{
    let bound = Scalar { bits: HALF_TURN_BITS };
    assert(bound.magnitude() == 0x4066_8000_0000_0000);
    assert(bound.exponent() == 1030 && bound.fraction() == 0x0006_8000_0000_0000);
}

/// The setting that a camera cannot be made with: the first one, in the
/// order of the parameters of `Camera::new`, that is out of bounds.
#[derive(Clone, Copy, Debug, PartialEq, Eq, Structural)]
pub enum ConfigError {
    /// The aspect ratio is not a finite number above zero.
    AspectRatio,
    /// The image width is not above zero.
    ImageWidth,
    /// The number of samples per pixel is not above zero.
    SamplesPerPixel,
    /// The bounce limit is below zero.
    MaxDepth,
    /// The vertical field of view is not strictly between 0 and 180 degrees.
    FieldOfView,
    /// The camera looks at the point where it stands, or one of the two
    /// points has a component that is not finite.
    LookAt,
    /// The up vector is zero, has a component that is not finite, or is
    /// parallel to the viewing direction.
    Up,
    /// The defocus angle is below zero or not finite.
    DefocusAngle,
    /// The focus distance is not a finite number above zero.
    FocusDistance,
}

/// Whether `x` is a finite number above zero.
pub open spec fn positive(x: Scalar) -> bool {
    Scalar::spec_zero().lt(x) && x.finite()
}

/// Whether every component of `v` is finite.
pub open spec fn finite_vector(v: Vec3) -> bool {
    v.x.finite() && v.y.finite() && v.z.finite()
}

/// Whether two finite points are the same point.
pub open spec fn same_point(a: Point3, b: Point3) -> bool {
    a.x.rank() == b.x.rank() && a.y.rank() == b.y.rank() && a.z.rank() == b.z.rank()
}

/// The quotient of an image width by an aspect ratio, rounded to the nearest
/// whole number, halves upwards: `floor(width / ratio + 1/2)`, with the ratio
/// counted in units of 2^-1074.
pub open spec fn rounded_quotient(width: int, aspect_ratio: Scalar) -> int {
    (2 * width * pow2(1074) + aspect_ratio.units()) / (2 * aspect_ratio.units() as int)
}

/// The height of an image of the given width and aspect ratio: the rounded
/// quotient of the two, but at least 1 and at most `i32::MAX`.
pub open spec fn height_for(width: int, aspect_ratio: Scalar) -> int {
    let height = rounded_quotient(width, aspect_ratio);
    if height < 1 {
        1
    } else if height > i32::MAX {
        i32::MAX as int
    } else {
        height
    }
}

/// The settings that a camera is asked to take.
#[derive(Clone, Copy, Debug, PartialEq, Eq, Structural)]
pub struct Settings {
    pub aspect_ratio: Scalar,
    pub image_width: i32,
    pub samples_per_pixel: i32,
    pub max_depth: i32,
    pub vfov: Scalar,
    pub look_from: Point3,
    pub look_at: Point3,
    pub vup: Vec3,
    /// The squared length of the cross product of `vup` with the viewing
    /// direction `look_from - look_at`, as the caller worked it out: above
    /// zero exactly when the two are not parallel.
    pub sideways: Scalar,
    pub defocus_angle: Scalar,
    pub focus_distance: Scalar,
}

impl Settings {
    /// The first setting that is out of bounds, if one is.
    pub open spec fn fault(self) -> Option<ConfigError> {
        if !positive(self.aspect_ratio) {
            Some(ConfigError::AspectRatio)
        } else if self.image_width <= 0 {
            Some(ConfigError::ImageWidth)
        } else if self.samples_per_pixel <= 0 {
            Some(ConfigError::SamplesPerPixel)
        } else if self.max_depth < 0 {
            Some(ConfigError::MaxDepth)
        } else if !(Scalar::spec_zero().lt(self.vfov) && self.vfov.lt(
            Scalar { bits: HALF_TURN_BITS },
        )) {
            Some(ConfigError::FieldOfView)
        } else if !finite_vector(self.look_from) || !finite_vector(self.look_at) || same_point(
            self.look_from,
            self.look_at,
        ) {
            Some(ConfigError::LookAt)
        } else if !finite_vector(self.vup) || same_point(self.vup, Vec3::spec_zero())
            || !Scalar::spec_zero().lt(self.sideways) {
            Some(ConfigError::Up)
        } else if !(Scalar::spec_zero().le(self.defocus_angle) && self.defocus_angle.finite()) {
            Some(ConfigError::DefocusAngle)
        } else if !positive(self.focus_distance) {
            Some(ConfigError::FocusDistance)
        } else {
            None
        }
    }
}

/// Two to the power `k`, for `k` up to 85.
fn power_of_two(k: u32) -> (p: u128)
    requires
        k <= 85,
    ensures
        p == pow2(k as nat),
        p <= 0x0020_0000_0000_0000_0000_0000,
{
    proof {
        lemma2_to64();
        lemma2_to64_rest();
        lemma_pow2_adds(64, 21);
    }
    let mut p: u128 = 1;
    let mut i: u32 = 0;
    while i < k
        invariant
            i <= k <= 85,
            p == pow2(i as nat),
            pow2(85) == 0x0020_0000_0000_0000_0000_0000,
        decreases k - i,
    {
        proof {
            lemma_pow2_unfold((i + 1) as nat);
            lemma_pow2_strictly_increases(i as nat, 85);
        }
        p = p * 2;
        i = i + 1;
    }
    proof {
        if k < 85 {
            lemma_pow2_strictly_increases(k as nat, 85);
        }
    }
    p
}

/// Whether `x` is finite.
fn is_finite(x: Scalar) -> (b: bool)
    ensures
        b == x.finite(),
{
    !x.is_nan() && x.to_bits() != crate::scalar::INFINITY_BITS && x.to_bits()
        != crate::scalar::INFINITY_BITS + crate::scalar::SIGN_BIT
}

/// Whether `x` is a finite number above zero.
fn is_positive(x: Scalar) -> (b: bool)
    ensures
        b == positive(x),
{
    Scalar::zero().lt(x) && is_finite(x)
}

/// Whether every component of `v` is finite.
fn is_finite_vector(v: &Vec3) -> (b: bool)
    ensures
        b == finite_vector(*v),
{
    is_finite(v.x) && is_finite(v.y) && is_finite(v.z)
}

/// Whether two components are the same number.
fn same_number(a: Scalar, b: Scalar) -> (same: bool)
    requires
        a.finite(),
        b.finite(),
    ensures
        same == (a.rank() == b.rank()),
{
    a.le(b) && b.le(a)
}

/// Whether two finite points are the same point.
fn is_same_point(a: &Point3, b: &Point3) -> (same: bool)
    requires
        finite_vector(*a),
        finite_vector(*b),
    ensures
        same == same_point(*a, *b),
{
    same_number(a.x, b.x) && same_number(a.y, b.y) && same_number(a.z, b.z)
}

/// The height of an image of the given width and aspect ratio.
///
/// It is the quotient of the two rounded to the nearest whole number, and
/// never below 1, however large the ratio.
pub fn image_height(image_width: i32, aspect_ratio: Scalar) -> (height: i32)
    requires
        image_width >= 1,
        positive(aspect_ratio),
    ensures
        height == height_for(image_width as int, aspect_ratio),
        height >= 1,
{
    let (significand, weight) = aspect_ratio.decode();
    let ghost width = image_width as int;
    let ghost sig = significand as int;
    let ghost full = pow2(1074) as int;
    let ghost low = pow2((weight - 1) as nat) as int;
    let ghost units = aspect_ratio.units() as int;
    proof {
        lemma_pow2_pos(1074);
        lemma_pow2_pos((weight - 1) as nat);
        assert(units == sig * low);
        assert(sig >= 1) by {
            if sig == 0 {
                assert(aspect_ratio.magnitude() == 0) by {
                    lemma_fundamental_div_mod(
                        aspect_ratio.magnitude() as int,
                        crate::scalar::HIDDEN_BIT as int,
                    );
                }
            }
        }
        lemma_mul_strictly_positive(sig, low);
    }
    if weight > 1075 {
        proof {
            // The ratio is 2^53 or more, above twice any width.
            lemma2_to64();
            lemma2_to64_rest();
            lemma_pow2_adds(1074, (weight - 1075) as nat);
            lemma_pow2_pos((weight - 1075) as nat);
            let rest = pow2((weight - 1075) as nat) as int;
            assert(low == full * rest);
            assert(2 * width * full < units) by (nonlinear_arith)
                requires
                    units == sig * low,
                    low == full * rest,
                    rest >= 1,
                    sig >= 0x0010_0000_0000_0000,
                    0 < width < 0x8000_0000,
                    full > 0,
            ;
            lemma_basic_div(2 * width * full + units, 2 * units);
        }
        return 1;
    }
    let k: u32 = 1075 - weight;
    let ghost lift = pow2(k as nat) as int;
    proof {
        lemma_pow2_pos(k as nat);
        lemma_pow2_adds((weight - 1) as nat, k as nat);
        assert(full == low * lift);
        // Both sides of the quotient shed the common factor `low`.
        lemma_div_multiples_vanish_quotient(low, 2 * width * lift + sig, 2 * sig);
        assert(low * (2 * width * lift + sig) == 2 * width * full + units) by (nonlinear_arith)
            requires
                full == low * lift,
                units == sig * low,
        ;
        assert(low * (2 * sig) == 2 * units) by (nonlinear_arith)
            requires
                units == sig * low,
        ;
        assert(rounded_quotient(width, aspect_ratio) == (2 * width * lift + sig) / (2 * sig));
    }
    if k > 85 {
        proof {
            lemma2_to64();
            lemma2_to64_rest();
            lemma_pow2_adds(64, 22);
            lemma_pow2_strictly_increases(85, k as nat);
            if k > 86 {
                lemma_pow2_strictly_increases(86, k as nat);
            }
            lemma_pow2_unfold(86);
            let bound = 0x1_0000_0000int * (2 * sig);
            assert(bound <= 2 * width * lift + sig) by (nonlinear_arith)
                requires
                    bound == 0x1_0000_0000int * (2 * sig),
                    0 < sig < 0x0020_0000_0000_0000,
                    width >= 1,
                    lift >= 0x0040_0000_0000_0000_0000_0000,
            ;
            lemma_div_is_ordered(bound, 2 * width * lift + sig, 2 * sig);
            lemma_div_by_multiple(0x1_0000_0000int, 2 * sig);
        }
        return i32::MAX;
    }
    let lifted: u128 = power_of_two(k);
    assert(2 * (image_width as u128) * lifted <= 0x2000_0000_0000_0000_0000_0000_0000_0000)
        by (nonlinear_arith)
        requires
            0 < image_width < 0x8000_0000,
            lifted <= 0x0020_0000_0000_0000_0000_0000,
    ;
    let numerator: u128 = 2 * (image_width as u128) * lifted + significand as u128;
    let quotient: u128 = numerator / (2 * significand as u128);
    if quotient < 1 {
        1
    } else if quotient > i32::MAX as u128 {
        i32::MAX
    } else {
        quotient as i32
    }
}

/// A camera: settings that are all within their bounds, and the height of
/// the image that follows from them.
#[derive(Clone, Copy, Debug, PartialEq, Eq, Structural)]
pub struct Camera {
    settings: Settings,
    image_height: i32,
}

impl Camera {
    #[verifier::type_invariant]
    spec fn well_formed(self) -> bool {
        &&& self.settings.fault() is None
        &&& self.image_height == height_for(
            self.settings.image_width as int,
            self.settings.aspect_ratio,
        )
    }

    /// The settings the camera was made with.
    pub closed spec fn spec_settings(&self) -> Settings {
        self.settings
    }

    /// The height of the image in pixels.
    pub closed spec fn spec_image_height(&self) -> i32 {
        self.image_height
    }

    /// Makes the camera, if the settings allow it.
    ///
    /// The camera is made exactly when every setting is within its bounds;
    /// otherwise the error names the first that is not. `sideways` is the
    /// squared length of the cross product of `vup` with the viewing
    /// direction `look_from - look_at`, worked out by the caller: an up
    /// vector parallel to the viewing direction has none above zero, and is
    /// refused.
    pub fn new(
        aspect_ratio: Scalar,
        image_width: i32,
        samples_per_pixel: i32,
        max_depth: i32,
        vfov: Scalar,
        look_from: Point3,
        look_at: Point3,
        vup: Vec3,
        sideways: Scalar,
        defocus_angle: Scalar,
        focus_distance: Scalar,
    ) -> (made: Result<Camera, ConfigError>)
        ensures
            match made {
                Ok(camera) => {
                    &&& camera.settings() == (Settings {
                        aspect_ratio,
                        image_width,
                        samples_per_pixel,
                        max_depth,
                        vfov,
                        look_from,
                        look_at,
                        vup,
                        sideways,
                        defocus_angle,
                        focus_distance,
                    })
                    &&& camera.settings().fault() is None
                    &&& camera.image_height() == height_for(image_width as int, aspect_ratio)
                },
                Err(error) => (Settings {
                    aspect_ratio,
                    image_width,
                    samples_per_pixel,
                    max_depth,
                    vfov,
                    look_from,
                    look_at,
                    vup,
                    sideways,
                    defocus_angle,
                    focus_distance,
                }).fault() == Some(error),
            },
    {
        let settings = Settings {
            aspect_ratio,
            image_width,
            samples_per_pixel,
            max_depth,
            vfov,
            look_from,
            look_at,
            vup,
            sideways,
            defocus_angle,
            focus_distance,
        };
        if !is_positive(aspect_ratio) {
            return Err(ConfigError::AspectRatio);
        }
        if image_width <= 0 {
            return Err(ConfigError::ImageWidth);
        }
        if samples_per_pixel <= 0 {
            return Err(ConfigError::SamplesPerPixel);
        }
        if max_depth < 0 {
            return Err(ConfigError::MaxDepth);
        }
        if !(Scalar::zero().lt(vfov) && vfov.lt(Scalar::from_bits(HALF_TURN_BITS))) {
            return Err(ConfigError::FieldOfView);
        }
        if !is_finite_vector(&look_from) || !is_finite_vector(&look_at) || is_same_point(
            &look_from,
            &look_at,
        ) {
            return Err(ConfigError::LookAt);
        }
        if !is_finite_vector(&vup) || is_same_point(&vup, &Vec3::zero()) || !Scalar::zero().lt(
            sideways,
        ) {
            return Err(ConfigError::Up);
        }
        if !(Scalar::zero().le(defocus_angle) && is_finite(defocus_angle)) {
            return Err(ConfigError::DefocusAngle);
        }
        if !is_positive(focus_distance) {
            return Err(ConfigError::FocusDistance);
        }
        let image_height: i32 = image_height(image_width, aspect_ratio);
        Ok(Camera { settings, image_height })
    }

    /// The settings the camera was made with, each within its bounds.
    #[verifier::when_used_as_spec(spec_settings)]
    pub fn settings(&self) -> (settings: Settings)
        ensures
            settings == self.spec_settings(),
            settings.fault() is None,
    {
        proof {
            use_type_invariant(self);
        }
        self.settings
    }

    /// The height of the image in pixels: at least 1.
    #[verifier::when_used_as_spec(spec_image_height)]
    pub fn image_height(&self) -> (height: i32)
        ensures
            height == self.spec_image_height(),
            height == height_for(self.settings().image_width as int, self.settings().aspect_ratio),
            height >= 1,
    {
        proof {
            use_type_invariant(self);
        }
        self.image_height
    }

    /// Whether every ray starts at the camera's own position, as through a
    /// pinhole, rather than somewhere on the defocus disk: it does when the
    /// defocus angle is not above zero.
    pub fn pinhole(&self) -> (pinhole: bool)
        ensures
            pinhole == !Scalar::spec_zero().lt(self.settings().defocus_angle),
    {
        !Scalar::zero().lt(self.settings.defocus_angle)
    }
}

} // verus!
