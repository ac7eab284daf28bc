//! An RGBA image of a rectangular region of the ship grid.
use crate::vec::{IVec2, UVec2};
use vstd::prelude::*;

verus! {

/// Row-major RGBA pixels of the region `origin .. origin + size`, top row
/// first, four bytes per pixel.
#[derive(Debug, Clone, PartialEq, Eq)]
pub struct Raster {
    pub origin: IVec2,
    pub size: UVec2,
    pub pixels: Vec<u8>,
}

/// The number of bytes of an RGBA image of `size`.
pub open spec fn byte_len(size: UVec2) -> int {
    size.x * size.y * 4
}

impl Raster {
    /// A fully transparent image.
    pub fn new(origin: IVec2, size: UVec2) -> (r: Raster)
        requires
            byte_len(size) <= u32::MAX,
        ensures
            r.origin == origin,
            r.size == size,
            r.pixels@.len() == byte_len(size),
            forall|i: int| 0 <= i < r.pixels@.len() ==> r.pixels@[i] == 0u8,
    {
        assert(0 <= size.x * size.y) by (nonlinear_arith);
        let n = size.x * size.y * 4;
        Raster { origin, size, pixels: vec![0u8; n as usize] }
    }
}

} // verus!
