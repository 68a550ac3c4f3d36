//! Where rays meet surfaces: the record of one meeting, the choice between
//! the two crossings of a sphere, and the nearest of many meetings.

pub mod hittable;
pub mod list;
pub mod sphere;
