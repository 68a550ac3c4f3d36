//! Spheres, and the choice between the two times at which a ray's line
//! crosses one.

use crate::interval::Interval;
use crate::materials::Material;
use crate::scalar::Scalar;
use crate::vec3::Point3;
use vstd::prelude::*;

verus! {

/// A sphere of one material. The radius is never below zero.
#[derive(Clone, Copy, Debug, PartialEq, Eq, Structural)]
pub struct Sphere {
    center: Point3,
    radius: Scalar,
    material: Material,
}

impl Sphere {
    #[verifier::type_invariant]
    spec fn radius_not_negative(self) -> bool {
        Scalar::spec_zero().le(self.radius)
    }

    /// The centre.
    pub closed spec fn spec_center(&self) -> Point3 {
        self.center
    }

    /// The radius.
    pub closed spec fn spec_radius(&self) -> Scalar {
        self.radius
    }

    /// The material.
    pub closed spec fn spec_material(&self) -> Material {
        self.material
    }

    /// The radius that a requested radius stands for: zero for a request
    /// below zero or not a number, the request itself otherwise.
    pub open spec fn clamped_radius(radius: Scalar) -> Scalar {
        if radius.nan() || radius.lt(Scalar::spec_zero()) {
            Scalar::spec_zero()
        } else {
            radius
        }
    }

    /// The time at which a ray hits a sphere, if it does within `time_range`.
    ///
    /// `discriminant` is that of the quadratic whose roots are the times at
    /// which the ray's line crosses the sphere, `near` the smaller root and
    /// `far` the larger. Below a discriminant of zero there is no crossing.
    /// Otherwise the near root is the hit if it lies in the range; failing
    /// that the far root is, if it lies in the range.
    pub open spec fn spec_hit_time(
        discriminant: Scalar,
        near: Scalar,
        far: Scalar,
        time_range: Interval,
    ) -> Option<Scalar> {
        if discriminant.lt(Scalar::spec_zero()) {
            None
        } else if time_range.contains(near) {
            Some(near)
        } else if time_range.contains(far) {
            Some(far)
        } else {
            None
        }
    }

    /// The sphere round `center`, with the radius clamped to zero from below.
    pub fn new(center: Point3, radius: Scalar, material: Material) -> (sphere: Sphere)
        ensures
            sphere.center() == center,
            sphere.radius() == Self::clamped_radius(radius),
            sphere.material() == material,
    {
        let radius: Scalar = if radius.is_nan() || radius.lt(Scalar::zero()) {
            Scalar::zero()
        } else {
            radius
        };
        Sphere { center, radius, material }
    }

    /// The centre.
    #[verifier::when_used_as_spec(spec_center)]
    pub fn center(&self) -> (center: Point3)
        ensures
            center == self.spec_center(),
    {
        self.center
    }

    /// The radius, which is zero or more.
    #[verifier::when_used_as_spec(spec_radius)]
    pub fn radius(&self) -> (radius: Scalar)
        ensures
            radius == self.spec_radius(),
            Scalar::spec_zero().le(radius),
    {
        proof {
            use_type_invariant(self);
        }
        self.radius
    }

    /// The material.
    #[verifier::when_used_as_spec(spec_material)]
    pub fn material(&self) -> (material: Material)
        ensures
            material == self.spec_material(),
    {
        self.material
    }

    /// The time at which a ray hits a sphere, if it does within
    /// `time_range`: the nearer crossing that lies in the range.
    ///
    /// A time that comes back lies in the range, and none comes back exactly
    /// when there is no crossing or neither crossing lies in the range.
    #[verifier::when_used_as_spec(spec_hit_time)]
    pub fn hit_time(discriminant: Scalar, near: Scalar, far: Scalar, time_range: Interval) -> (time:
        Option<Scalar>)
        ensures
            time == Self::spec_hit_time(discriminant, near, far, time_range),
            time matches Some(t) ==> time_range.contains(t) && (t == near || t == far),
            time is None <==> discriminant.lt(Scalar::spec_zero()) || (!time_range.contains(near)
                && !time_range.contains(far)),
            time == Some(far) && far != near ==> !time_range.contains(near),
    {
        if discriminant.lt(Scalar::zero()) {
            None
        } else if time_range.contains(near) {
            Some(near)
        } else if time_range.contains(far) {
            Some(far)
        } else {
            None
        }
    }
}

} // verus!
