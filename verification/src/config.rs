//! Tuning of the ship editor.
use crate::vec::{IVec2, UVec2};
use vstd::prelude::*;

verus! {

/// The fixed editing canvas: the grid region the editor shows and paints.
#[derive(Debug, Clone, Copy, PartialEq, Eq, Structural)]
pub struct Editor {
    pub canvas_origin: IVec2,
    pub canvas_size: UVec2,
}

impl Default for Editor {
    /// A 64 by 64 canvas centred on the origin.
    fn default() -> (e: Editor)
        ensures
            e.canvas_origin@ == (-32int, -32int),
            e.canvas_size@ == (64nat, 64nat),
    {
        Editor { canvas_origin: IVec2 { x: -32, y: -32 }, canvas_size: UVec2 { x: 64, y: 64 } }
    }
}

} // verus!
