//! When a ray counts as hitting a shape.

pub mod planes;
pub mod sphere;
