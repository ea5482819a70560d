//! A Monte-Carlo path tracer over fixed-point numbers.
//!
//! Every quantity (coordinates, directions, colours, distances) is a
//! fixed-point scalar with six decimal places, stored in an `i64`; see
//! [`fixed`]. All arithmetic saturates, so no executable function of this
//! crate panics and none has a precondition.
//!
//! Pseudo-random numbers come from a generator that the caller passes in;
//! see [`rng`]. Every function is therefore a function of its arguments, and
//! its contract says what it returns, to the last digit.
//!
//! [`render::render`] renders a whole image. Its rows are independent of
//! each other, so a caller may as well render them side by side with
//! [`render::render_row`].

pub mod error;
pub mod fixed;
pub mod rng;
pub mod vec3;
pub mod ray;
pub mod material;
pub mod shape;
pub mod camera;
pub mod integrator;
pub mod scene;
pub mod render;
