//! The axis-aligned plane a rectangle lies in.

use vstd::prelude::*;

verus! {

/// Which pair of coordinate axes spans a rectangle; the third axis
/// carries its signed distance from the origin.
#[derive(Debug, Clone, Copy, PartialEq, Eq, Structural)]
pub enum RectPlane {
    Xy,
    Xz,
    Yz,
}

impl RectPlane {
    /// The two in-plane axis indices followed by the normal axis index.
    pub fn get_axis(&self) -> (r: (usize, usize, usize))
        ensures
            r == (match self {
                RectPlane::Xy => (0usize, 1usize, 2usize),
                RectPlane::Xz => (0usize, 2usize, 1usize),
                RectPlane::Yz => (1usize, 2usize, 0usize),
            }),
    {
        match self {
            RectPlane::Xy => (0, 1, 2),
            RectPlane::Xz => (0, 2, 1),
            RectPlane::Yz => (1, 2, 0),
        }
    }
}

} // verus!
