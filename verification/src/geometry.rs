//! Positions in the ground frame.

use vstd::prelude::*;
use crate::scalar::Scalar;

verus! {

/// A located radar return: an absolute position in the frame in which the
/// radar units report their own place.
#[derive(Clone, Copy, Debug, PartialEq, Eq, Structural)]
pub struct RadarReturn {
    pub x: Scalar,
    pub y: Scalar,
    pub z: Scalar,
}

/// A vector of three coordinates.
#[derive(Clone, Copy, Debug, PartialEq, Eq, Structural)]
pub struct Vec3D {
    pub x: Scalar,
    pub y: Scalar,
    pub z: Scalar,
}

impl RadarReturn {
    /// The position as a vector, coordinate by coordinate.
    pub open spec fn vector(self) -> Vec3D {
        Vec3D { x: self.x, y: self.y, z: self.z }
    }
}

impl From<&RadarReturn> for Vec3D {
    fn from(r: &RadarReturn) -> (v: Vec3D) {
        Vec3D { x: r.x, y: r.y, z: r.z }
    }
}

impl vstd::std_specs::convert::FromSpecImpl<&RadarReturn> for Vec3D {
    open spec fn obeys_from_spec() -> bool {
        true
    }

    open spec fn from_spec(r: &RadarReturn) -> Vec3D {
        r.vector()
    }
}

} // verus!
