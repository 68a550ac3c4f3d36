//! The exact core of a path tracer for scenes of spheres.
//!
//! Real numbers are IEEE 754 doubles held as bit patterns (`scalar`). Sums,
//! products, quotients and roots of them round, and belong to the caller, who
//! hands them in through a few functions. Whatever is decided by comparing
//! numbers, by counting, or in whole-number arithmetic on what the patterns
//! stand for is decided here: which crossing of a sphere counts, which hit is
//! nearest, what each material makes of a ray, how a path goes on and ends,
//! how large the image is, at which level a colour is shown, and what the
//! image file says.

use vstd::prelude::*;

pub mod camera;
pub mod color;
pub mod hit;
pub mod interval;
pub mod materials;
pub mod ppm;
pub mod random;
pub mod ray;
pub mod scalar;
pub mod vec3;

verus! {

/// Adds two sizes whose sum fits in a `usize`.
pub fn add(left: usize, right: usize) -> (sum: usize)
    requires
        left + right <= usize::MAX,
    ensures
        sum == left + right,
{
    left + right
}

} // verus!
