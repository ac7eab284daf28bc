//! Integer two-dimensional vectors for grid positions and sizes.
use vstd::prelude::*;

verus! {

/// A signed grid position or offset.
#[derive(Debug, Clone, Copy, PartialEq, Eq, Hash, Structural)]
pub struct IVec2 {
    pub x: i32,
    pub y: i32,
}

/// An unsigned grid size.
#[derive(Debug, Clone, Copy, PartialEq, Eq, Hash, Structural)]
pub struct UVec2 {
    pub x: u32,
    pub y: u32,
}

impl View for IVec2 {
    type V = (int, int);

    open spec fn view(&self) -> (int, int) {
        (self.x as int, self.y as int)
    }
}

impl View for UVec2 {
    type V = (nat, nat);

    open spec fn view(&self) -> (nat, nat) {
        (self.x as nat, self.y as nat)
    }
}

/// Whether a mathematical pair fits in an `IVec2`.
pub open spec fn in_i32_range(p: (int, int)) -> bool {
    i32::MIN <= p.0 <= i32::MAX && i32::MIN <= p.1 <= i32::MAX
}

impl IVec2 {
    pub fn new(x: i32, y: i32) -> (r: IVec2)
        ensures
            r.x == x,
            r.y == y,
    {
        IVec2 { x, y }
    }

    /// The origin `(0, 0)`.
    pub fn zero() -> (r: IVec2)
        ensures
            r@ == (0int, 0int),
    {
        IVec2 { x: 0, y: 0 }
    }

    /// Component-wise minimum.
    pub fn min(self, other: IVec2) -> (r: IVec2)
        ensures
            r.x == if self.x <= other.x { self.x } else { other.x },
            r.y == if self.y <= other.y { self.y } else { other.y },
    {
        IVec2 {
            x: if self.x <= other.x { self.x } else { other.x },
            y: if self.y <= other.y { self.y } else { other.y },
        }
    }

    /// Component-wise maximum.
    pub fn max(self, other: IVec2) -> (r: IVec2)
        ensures
            r.x == if self.x >= other.x { self.x } else { other.x },
            r.y == if self.y >= other.y { self.y } else { other.y },
    {
        IVec2 {
            x: if self.x >= other.x { self.x } else { other.x },
            y: if self.y >= other.y { self.y } else { other.y },
        }
    }
}

impl UVec2 {
    pub fn new(x: u32, y: u32) -> (r: UVec2)
        ensures
            r.x == x,
            r.y == y,
    {
        UVec2 { x, y }
    }
}

} // verus!
