//! The record of a ray meeting a surface.

use crate::materials::Material;
use crate::scalar::Scalar;
use crate::vec3::{Point3, Vec3};
use vstd::prelude::*;

verus! {

/// What is known of one meeting of a ray with a surface.
///
/// `normal` is the surface normal turned against the incoming ray, and
/// `outside` tells whether the ray came from outside the surface.
#[derive(Clone, Copy, Debug, PartialEq, Eq, Structural)]
pub struct HitRecord {
    pub point: Point3,
    pub normal: Vec3,
    pub material: Material,
    pub time: Scalar,
    pub outside: bool,
}

impl HitRecord {
    /// Whether a ray comes from outside a surface, given `approach`, the dot
    /// product of the ray's direction with the outward normal: it does when
    /// the two point against each other, that is when `approach` is below zero.
    pub open spec fn from_outside(approach: Scalar) -> bool {
        approach.lt(Scalar::spec_zero())
    }

    /// The record of a ray meeting a surface at `point` and `time`.
    ///
    /// `outward_normal` is the surface's own normal at the point and
    /// `approach` the dot product of the ray's direction with it. The record
    /// keeps the normal when the ray comes from outside and turns it round
    /// otherwise, so that the recorded normal never points along the ray.
    pub fn new(
        point: Point3,
        outward_normal: Vec3,
        material: Material,
        time: Scalar,
        approach: Scalar,
    ) -> (record: HitRecord)
        ensures
            record.point == point,
            record.material == material,
            record.time == time,
            record.outside == Self::from_outside(approach),
            record.normal == if Self::from_outside(approach) {
                outward_normal
            } else {
                outward_normal.reversed()
            },
    {
        let outside: bool = approach.lt(Scalar::zero());
        let normal: Vec3 = if outside {
            outward_normal
        } else {
            outward_normal.neg()
        };
        HitRecord { point, normal, material, time, outside }
    }
}

/// The recorded normal never points along the ray: the dot product of the
/// ray's direction with it, which is `approach` as it stands or negated where
/// the normal was turned round, is not above zero.
pub proof fn lemma_recorded_normal_opposes_the_ray(approach: Scalar)
    requires
        !approach.nan(),
    ensures
        HitRecord::from_outside(approach) ==> approach.lt(Scalar::spec_zero()),
        !HitRecord::from_outside(approach) ==> approach.negated().le(Scalar::spec_zero()),
{
}

} // verus!
