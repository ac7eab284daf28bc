//! One occupied cell of a ship grid.
use crate::ship::module::ShipModuleKind;
use vstd::prelude::*;

verus! {

/// The contents of one grid cell.
#[derive(Debug, Clone, Copy, PartialEq, Eq, Structural)]
pub struct ShipCell {
    pub kind: ShipModuleKind,
}

} // verus!
