//! The ship being built: its module grid and the integer geometry derived
//! from it.
pub mod canvas;
pub mod cell;
pub mod grid;
pub mod module;
pub mod order;
pub mod raster;
pub mod thrust;

use crate::ship::cell::ShipCell;
use crate::ship::grid::ShipGrid;
use crate::ship::module::ShipModuleKind;
use crate::vec::IVec2;
use vstd::prelude::*;

verus! {

/// A ship under construction: the grid of modules it is built from.
pub struct Ship {
    grid: ShipGrid,
}

impl Ship {
    /// The occupied positions and their cells.
    pub closed spec fn view(&self) -> Map<(int, int), ShipCell> {
        self.grid@
    }

    /// A ship with no modules.
    pub fn new() -> (s: Ship)
        ensures
            s@ == Map::<(int, int), ShipCell>::empty(),
    {
        Ship { grid: ShipGrid::new() }
    }

    /// Puts a module of `kind` at `at`, replacing what was there.
    pub fn place(&mut self, at: IVec2, kind: ShipModuleKind)
        ensures
            final(self)@ == old(self)@.insert(at@, ShipCell { kind }),
    {
        self.grid.place(at, kind);
    }

    /// Clears `at`, handing back the cell that was there.
    pub fn remove(&mut self, at: IVec2) -> (r: Option<ShipCell>)
        ensures
            final(self)@ == old(self)@.remove(at@),
            r == old(self)@.get(at@),
    {
        self.grid.remove(at)
    }

    /// The module grid.
    pub fn grid(&self) -> (g: &ShipGrid)
        ensures
            g@ == self@,
    {
        &self.grid
    }
}

impl View for Ship {
    type V = Map<(int, int), ShipCell>;

    open spec fn view(&self) -> Map<(int, int), ShipCell> {
        Ship::view(self)
    }
}

} // verus!
