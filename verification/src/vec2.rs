//! A two-component vector, generic over the component type.

use vstd::prelude::*;

verus! {

/// A pair of components named `x` and `y`; the renderer instantiates it
/// with scalars for texture coordinates and pixel positions, the OBJ
/// scanner with the raw text of the two numbers of a `vt` line.
#[derive(Debug, Clone, Copy, PartialEq, Eq, Structural)]
pub struct Vec2<T> {
    pub x: T,
    pub y: T,
}

impl<T> Vec2<T> {
    /// Packs the two components into a vector.
    pub fn new(x: T, y: T) -> (r: Self)
        ensures
            r == (Vec2 { x, y }),
    {
        Self { x, y }
    }
}

} // verus!
