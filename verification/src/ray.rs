//! Rays: half-lines through the scene.

use crate::vec3::{Point3, Vec3};
use vstd::prelude::*;

verus! {

/// A ray: the points `origin + t * direction` for the times `t`. The
/// direction need not have unit length.
#[derive(Clone, Copy, Debug, PartialEq, Eq, Structural)]
pub struct Ray {
    pub origin: Point3,
    pub direction: Vec3,
}

impl Ray {
    /// The ray from `origin` along `direction`.
    pub fn new(origin: Point3, direction: Vec3) -> (ray: Ray)
        ensures
            ray == (Ray { origin, direction }),
    {
        Ray { origin, direction }
    }
}

} // verus!
