//! The ways in which building a scene, a camera or an image can fail.

use vstd::prelude::*;

verus! {

/// Why a scene, a camera or an image was refused.
#[derive(Clone, Copy, Debug, PartialEq, Eq, Structural)]
pub enum TraceError {
    /// A sphere whose radius is not positive.
    InvalidGeometry,
    /// A vector of length zero where a direction is needed.
    DegenerateRay,
    /// An image without pixels, or a pixel without samples.
    InvalidConfiguration,
}

} // verus!
