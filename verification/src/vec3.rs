//! A three-component vector, generic over the component type.

use vstd::prelude::*;

verus! {

/// Three components stored as one array, in the order right, up,
/// forward; the renderer instantiates it with scalars for positions and
/// directions, the OBJ scanner with the raw text of the three numbers of
/// a `v` or `vn` line.
#[derive(Debug, Clone, Copy, PartialEq, Eq, Structural)]
pub struct Vec3<T> {
    pub e: [T; 3],
}

impl<T> Vec3<T> {
    /// Packs the three components into a vector.
    pub fn new(e0: T, e1: T, e2: T) -> (r: Self)
        ensures
            r.e@ == seq![e0, e1, e2],
    {
        let r = Self { e: [e0, e1, e2] };
        proof {
            assert(r.e@ =~= seq![e0, e1, e2]);
        }
        r
    }
}

} // verus!
