use pixel_spaceships_core::color::Color;
use pixel_spaceships_core::config::Editor;
use pixel_spaceships_core::noise::hash_bits;
use pixel_spaceships_core::ship::grid::ShipGrid;
use pixel_spaceships_core::ship::module::ModuleColors;
use pixel_spaceships_core::direction::{neighbor, Direction};
use pixel_spaceships_core::ship::canvas::{canvas_cell, cell_texel};
use pixel_spaceships_core::ship::cell::ShipCell;
use pixel_spaceships_core::ship::module::{KindSet, ShipModuleKind};
use pixel_spaceships_core::ship::raster::Raster;
use pixel_spaceships_core::ship::thrust::Command;
use pixel_spaceships_core::ship::Ship;
use pixel_spaceships_core::{IVec2, UVec2};

#[test]
fn opposite_directions_pair_up() {
    for d in Direction::ALL {
        assert_eq!(d.opposite().opposite(), d);
        assert_ne!(d.opposite(), d);
        let (a, b) = (d.as_ivec2(), d.opposite().as_ivec2());
        assert_eq!((a.x + b.x, a.y + b.y), (0, 0));
        assert_eq!(a.x.abs() + a.y.abs(), 1);
    }
    assert_eq!(Direction::North.as_ivec2(), IVec2::new(0, 1));
    assert_eq!(Direction::West.as_ivec2(), IVec2::new(-1, 0));
    assert_eq!(Direction::East.opposite(), Direction::West);
    assert_eq!(Direction::South.opposite(), Direction::North);
}

#[test]
fn neighbor_stops_at_the_coordinate_limit() {
    assert_eq!(neighbor(IVec2::new(3, 4), Direction::South), Some(IVec2::new(3, 3)));
    assert_eq!(neighbor(IVec2::new(i32::MAX, 0), Direction::East), None);
    assert_eq!(neighbor(IVec2::new(0, i32::MIN), Direction::South), None);
    assert_eq!(neighbor(IVec2::new(i32::MAX, 0), Direction::West), Some(IVec2::new(i32::MAX - 1, 0)));
}

#[test]
fn command_slots_follow_the_listing() {
    for (i, c) in Command::ALL.iter().enumerate() {
        assert_eq!(c.index(), i);
    }
    assert_eq!(Command::Ccw.index(), 4);
    assert_eq!(Command::Cw.index(), 5);
}

#[test]
fn hex_colours_split_into_channels() {
    assert_eq!(Color::rgb_hex(0x3E8948), Color::rgb(0x3E, 0x89, 0x48));
    assert_eq!(Color::rgb_hex(0xFF_8B9BB4), Color::rgb(0x8B, 0x9B, 0xB4));
    assert_eq!(Color::rgb(1, 2, 3).to_rgba(), [1, 2, 3, 255]);
}

#[test]
fn new_raster_is_transparent() {
    let raster = Raster::new(IVec2::new(-3, 2), UVec2::new(3, 2));
    assert_eq!(raster.pixels, vec![0u8; 24]);
    assert_eq!(raster.origin, IVec2::new(-3, 2));
    assert_eq!(Raster::new(IVec2::zero(), UVec2::new(0, 5)).pixels.len(), 0);
}

#[test]
fn canvas_texels_map_to_cells_top_row_first() {
    let origin = IVec2::new(-32, -32);
    let size = UVec2::new(64, 64);
    assert_eq!(canvas_cell(origin, size, 0, 0), Some(IVec2::new(-32, 31)));
    assert_eq!(canvas_cell(origin, size, 63, 63), Some(IVec2::new(31, -32)));
    assert_eq!(canvas_cell(origin, size, 64, 0), None);
    assert_eq!(canvas_cell(origin, size, 0, -1), None);
    assert_eq!(canvas_cell(origin, size, -1, 5), None);
    for (tx, ty) in [(0, 0), (5, 9), (63, 0), (17, 63)] {
        let cell = canvas_cell(origin, size, tx, ty).unwrap();
        assert_eq!(cell_texel(origin, size, cell), (tx as i64, ty as i64));
    }
}

#[test]
fn ship_place_and_remove() {
    let mut ship = Ship::new();
    ship.place(IVec2::new(1, 1), ShipModuleKind::Thruster);
    assert_eq!(ship.grid().get(IVec2::new(1, 1)), Some(&ShipCell { kind: ShipModuleKind::Thruster }));
    assert_eq!(ship.remove(IVec2::new(1, 1)), Some(ShipCell { kind: ShipModuleKind::Thruster }));
    assert!(ship.grid().is_empty());
}

#[test]
fn module_kinds_have_names() {
    let names: Vec<&str> = ShipModuleKind::ALL.iter().map(|k| k.name()).collect();
    assert_eq!(names, vec!["Hull", "Thruster", "Reactor"]);
    let set = KindSet { hull: true, thruster: false, reactor: true };
    assert!(set.contains(ShipModuleKind::Hull) && !set.contains(ShipModuleKind::Thruster));
}

#[test]
fn star_hash_scrambles_deterministically() {
    assert_eq!(hash_bits(0), 0);
    assert_eq!(hash_bits(1), 1_753_845_952);
    assert_eq!(hash_bits(2), 3_507_691_905);
    assert_eq!(hash_bits(1), hash_bits(1));
}

#[test]
fn editor_canvas_defaults_to_a_centred_square() {
    let editor = Editor::default();
    assert_eq!(editor.canvas_origin, IVec2::new(-32, -32));
    assert_eq!(editor.canvas_size, UVec2::new(64, 64));
}

#[test]
fn canvas_texels_show_the_cells_the_raster_paints() {
    let colors = ModuleColors {
        hull: Color::rgb(10, 20, 30),
        thruster: Color::rgb(40, 50, 60),
        reactor: Color::rgb(70, 80, 90),
    };
    let origin = IVec2::new(-2, -1);
    let size = UVec2::new(5, 3);
    let mut grid = ShipGrid::new();
    grid.place(IVec2::new(-2, 1), ShipModuleKind::Thruster);
    grid.place(IVec2::new(2, -1), ShipModuleKind::Reactor);
    grid.place(IVec2::new(0, 0), ShipModuleKind::Hull);
    let raster = grid.rasterize(origin, size, &colors);
    for ty in 0..size.y as i32 {
        for tx in 0..size.x as i32 {
            let cell = canvas_cell(origin, size, tx, ty).unwrap();
            let idx = ((ty as u32 * size.x + tx as u32) * 4) as usize;
            let expected = match grid.get(cell) {
                Some(c) => colors.color(c.kind).to_rgba().to_vec(),
                None => vec![0, 0, 0, 0],
            };
            assert_eq!(raster.pixels[idx..idx + 4].to_vec(), expected);
        }
    }
}
