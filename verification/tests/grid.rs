use pixel_spaceships_core::color::Color;
use pixel_spaceships_core::direction::Direction;
use pixel_spaceships_core::ship::cell::ShipCell;
use pixel_spaceships_core::ship::grid::ShipGrid;
use pixel_spaceships_core::ship::module::{KindSet, ModuleColors, ShipModuleKind};
use pixel_spaceships_core::ship::thrust::ThrustFace;
use pixel_spaceships_core::{IVec2, UVec2};

fn default_colors() -> ModuleColors {
    ModuleColors {
        hull: Color::rgb_hex(0x8B9BB4),
        thruster: Color::rgb_hex(0xF77622),
        reactor: Color::rgb_hex(0x3E8948),
    }
}

fn thrusters_only() -> KindSet {
    KindSet { hull: false, thruster: true, reactor: false }
}

#[test]
fn rasterize_writes_module_color() {
    let modules = default_colors();
    let mut grid = ShipGrid::new();
    grid.place(IVec2::zero(), ShipModuleKind::Reactor);
    let raster = grid.rasterize(IVec2::zero(), UVec2::new(1, 1), &modules);
    assert_eq!(raster.pixels, modules.color(ShipModuleKind::Reactor).to_rgba());
}

#[test]
fn rasterize_flips_y_so_higher_cells_land_in_higher_rows() {
    let modules = default_colors();
    let mut grid = ShipGrid::new();
    grid.place(IVec2::new(0, 1), ShipModuleKind::Hull); // top cell
    let raster = grid.rasterize(IVec2::zero(), UVec2::new(1, 2), &modules);
    let hull = modules.color(ShipModuleKind::Hull).to_rgba();
    assert_eq!(raster.pixels[0..4].to_vec(), hull.to_vec()); // top row filled
    assert_eq!(raster.pixels[4..8].to_vec(), vec![0, 0, 0, 0]); // bottom row empty
}

#[test]
fn rasterize_ignores_cells_outside_the_region() {
    let modules = default_colors();
    let mut grid = ShipGrid::new();
    grid.place(IVec2::new(9, 9), ShipModuleKind::Hull);
    let raster = grid.rasterize(IVec2::zero(), UVec2::new(2, 2), &modules);
    assert!(raster.pixels.iter().all(|&b| b == 0));
}

#[test]
fn bounds_covers_every_cell() {
    let mut grid = ShipGrid::new();
    grid.place(IVec2::new(-1, 2), ShipModuleKind::Hull);
    grid.place(IVec2::new(3, -4), ShipModuleKind::Hull);
    assert_eq!(grid.bounds(), Some((IVec2::new(-1, -4), UVec2::new(5, 7))));
}

#[test]
fn bounds_is_none_when_empty() {
    assert_eq!(ShipGrid::new().bounds(), None);
}

#[test]
fn bounds_of_one_cell_is_that_cell() {
    let mut grid = ShipGrid::new();
    grid.place(IVec2::new(-7, 11), ShipModuleKind::Reactor);
    assert_eq!(grid.bounds(), Some((IVec2::new(-7, 11), UVec2::new(1, 1))));
}

#[test]
fn bounds_spanning_every_column_has_width_zero() {
    let mut grid = ShipGrid::new();
    grid.place(IVec2::new(i32::MIN, 0), ShipModuleKind::Hull);
    grid.place(IVec2::new(i32::MAX, 0), ShipModuleKind::Hull);
    assert_eq!(grid.bounds(), Some((IVec2::new(i32::MIN, 0), UVec2::new(0, 1))));
}

#[test]
fn rasterizing_the_bounds_shows_every_cell() {
    let colors = default_colors();
    let mut grid = ShipGrid::new();
    let cells = [
        (IVec2::new(-2, 0), ShipModuleKind::Hull),
        (IVec2::new(1, 3), ShipModuleKind::Thruster),
        (IVec2::new(0, -1), ShipModuleKind::Reactor),
    ];
    for (at, kind) in cells {
        grid.place(at, kind);
    }
    let (origin, size) = grid.bounds().unwrap();
    assert_eq!((origin, size), (IVec2::new(-2, -1), UVec2::new(4, 5)));
    let raster = grid.rasterize(origin, size, &colors);
    assert_eq!(raster.pixels.len(), 4 * 5 * 4);
    let mut painted = 0;
    for (at, kind) in cells {
        let col = (at.x - origin.x) as usize;
        let row = (size.y as i32 - 1 - (at.y - origin.y)) as usize;
        let idx = (row * size.x as usize + col) * 4;
        assert_eq!(raster.pixels[idx..idx + 4].to_vec(), colors.color(kind).to_rgba().to_vec());
        painted += 1;
    }
    let opaque = raster.pixels.chunks(4).filter(|p| p[3] != 0).count();
    assert_eq!(opaque, painted);
}

#[test]
fn thruster_faces_of_a_lone_thruster_open_every_way() {
    let mut grid = ShipGrid::new();
    grid.place(IVec2::new(4, 4), ShipModuleKind::Thruster);
    let faces = grid.thruster_faces(thrusters_only());
    let pushes: Vec<Direction> = faces.iter().map(|f| f.push).collect();
    assert_eq!(pushes, vec![Direction::East, Direction::West, Direction::North, Direction::South]);
    assert!(faces.iter().all(|f| f.cell == IVec2::new(4, 4)));
}

#[test]
fn thruster_faces_skip_sides_covered_by_a_neighbour() {
    let mut grid = ShipGrid::new();
    grid.place(IVec2::new(0, 0), ShipModuleKind::Thruster);
    grid.place(IVec2::new(0, 1), ShipModuleKind::Hull); // above: blocks the face pushing south
    grid.place(IVec2::new(-1, 0), ShipModuleKind::Hull); // left: blocks the face pushing east
    let faces = grid.thruster_faces(thrusters_only());
    assert_eq!(
        faces,
        vec![
            ThrustFace { cell: IVec2::new(0, 0), push: Direction::West },
            ThrustFace { cell: IVec2::new(0, 0), push: Direction::North },
        ]
    );
}

#[test]
fn thruster_faces_come_in_position_order() {
    let mut grid = ShipGrid::new();
    for (x, y) in [(2, 0), (0, 3), (0, -3), (-5, 9)] {
        grid.place(IVec2::new(x, y), ShipModuleKind::Thruster);
    }
    let faces = grid.thruster_faces(thrusters_only());
    let cells: Vec<(i32, i32)> = faces.iter().map(|f| (f.cell.x, f.cell.y)).collect();
    let mut expected = Vec::new();
    for p in [(-5, 9), (0, -3), (0, 3), (2, 0)] {
        for _ in 0..4 {
            expected.push(p);
        }
    }
    assert_eq!(cells, expected);
}

#[test]
fn thruster_faces_follow_the_chosen_kinds() {
    let mut grid = ShipGrid::new();
    grid.place(IVec2::new(0, 0), ShipModuleKind::Reactor);
    grid.place(IVec2::new(1, 0), ShipModuleKind::Thruster);
    assert_eq!(grid.thruster_faces(KindSet { hull: false, thruster: false, reactor: false }), vec![]);
    let reactor_faces = grid.thruster_faces(KindSet { hull: false, thruster: false, reactor: true });
    assert_eq!(reactor_faces.len(), 3);
    assert!(reactor_faces.iter().all(|f| f.cell == IVec2::new(0, 0) && f.push != Direction::West));
}

#[test]
fn thruster_faces_at_the_coordinate_limit() {
    let mut grid = ShipGrid::new();
    grid.place(IVec2::new(i32::MAX, i32::MIN), ShipModuleKind::Thruster);
    assert_eq!(grid.thruster_faces(thrusters_only()).len(), 4);
}

#[test]
fn grid_count_and_cells_agree() {
    let mut grid = ShipGrid::new();
    grid.place(IVec2::new(0, 0), ShipModuleKind::Hull);
    grid.place(IVec2::new(1, 0), ShipModuleKind::Thruster);
    grid.place(IVec2::new(2, 0), ShipModuleKind::Thruster);
    grid.place(IVec2::new(2, 0), ShipModuleKind::Reactor);
    assert_eq!(grid.count_kind(ShipModuleKind::Hull), 1);
    assert_eq!(grid.count_kind(ShipModuleKind::Thruster), 1);
    assert_eq!(grid.count_kind(ShipModuleKind::Reactor), 1);
    assert_eq!(grid.cells().len(), 3);
    assert_eq!(grid.get(IVec2::new(2, 0)), Some(&ShipCell { kind: ShipModuleKind::Reactor }));
    assert_eq!(grid.remove(IVec2::new(1, 0)), Some(ShipCell { kind: ShipModuleKind::Thruster }));
    assert_eq!(grid.count_kind(ShipModuleKind::Thruster), 0);
    assert!(!grid.is_empty());
}
