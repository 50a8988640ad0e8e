//! Integer width and height of the image being rendered.

use vstd::prelude::*;

verus! {

/// An image extent in whole pixels per axis.
#[derive(Debug, Clone, Copy, PartialEq, Eq, Structural)]
pub struct Size2i {
    pub width: i32,
    pub height: i32,
}

impl Size2i {
    /// Packs a width and a height into a size.
    pub fn new(width: i32, height: i32) -> (r: Self)
        ensures
            r == (Size2i { width, height }),
    {
        Self { width, height }
    }

    /// Number of pixels in an image of this size.
    pub fn count(self) -> (r: usize)
        requires
            self.width >= 0,
            self.height >= 0,
            self.width * self.height <= usize::MAX,
        ensures
            r == self.width * self.height,
    {
        let w = self.width as usize;
        let h = self.height as usize;
        proof {
            assert(w * h == self.width * self.height) by (nonlinear_arith)
                requires
                    w == self.width,
                    h == self.height,
            ;
        }
        w * h
    }
}

} // verus!
