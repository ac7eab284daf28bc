//! Ship-building core of a pixel spaceship game: the cell grid a ship is drawn
//! on, the modules placed in it, and the integer geometry around it.
pub mod blueprint;
pub mod cell_map;
pub mod color;
pub mod config;
pub mod direction;
pub mod module;
pub mod noise;
pub mod ship;
pub mod vec;

pub use blueprint::{Cell, Ship};
pub use direction::Direction;
pub use module::{ModuleDef, ModuleKind};
pub use vec::{IVec2, UVec2};
