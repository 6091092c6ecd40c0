//! The rules of a small ray tracer.
//!
//! A ray tracer casts a ray for each pixel, finds the nearest surface that
//! the ray meets, sums the light that reaches the point, and follows the
//! mirrored ray for a bounded number of bounces. The arithmetic on vectors and
//! colours is the host's; this library holds every choice that the tracer
//! makes on the way, and proves each to be what its contract says:
//!
//! - [`scalar`]: the order of double-precision numbers, read from their bits;
//! - [`geometry`]: when a ray counts as hitting a sphere or a rectangle;
//! - [`tracer`]: which hit is the nearest, which lights reach a point, and how
//!   many bounces are left;
//! - [`renderer`]: where each pixel of a picture lies in a frame;
//! - [`events`]: what the keyboard does to the camera.
//!
//! Numbers come in as [`scalar::Scalar`]s, the bit patterns of the host's
//! doubles, and are only ever compared.

pub mod events;
pub mod geometry;
pub mod renderer;
pub mod scalar;
pub mod tracer;

pub use events::handle_events;
