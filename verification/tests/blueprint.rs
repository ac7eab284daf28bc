use pixel_spaceships_core::blueprint::Cell;
use pixel_spaceships_core::{IVec2, ModuleDef, ModuleKind, Ship};

#[test]
fn power_and_thrust_add_up() {
    let mut ship = Ship::new();
    ship.place(IVec2::new(0, 0), ModuleKind::Reactor);
    ship.place(IVec2::new(1, 0), ModuleKind::Thruster);

    assert_eq!(ship.power_balance() as f32, 15.0);
    assert_eq!(ship.total_thrust() as f32, 10.0);
    assert_eq!(ship.total_mass() as f32, 6.0);
}

#[test]
fn remove_clears_cell() {
    let mut ship = Ship::new();
    ship.place(IVec2::new(0, 0), ModuleKind::Hull);
    assert!(ship.get(IVec2::new(0, 0)).is_some());
    ship.remove(IVec2::new(0, 0));
    assert!(ship.is_empty());
}

#[test]
fn place_replaces_the_cell_at_a_position() {
    let mut ship = Ship::new();
    ship.place(IVec2::new(2, -3), ModuleKind::Hull);
    ship.place(IVec2::new(2, -3), ModuleKind::Reactor);
    assert_eq!(ship.get(IVec2::new(2, -3)), Some(&Cell { kind: ModuleKind::Reactor }));
    assert_eq!(ship.cells().len(), 1);
    assert_eq!(ship.total_mass(), 4);
    assert_eq!(ship.power_balance(), 20);
}

#[test]
fn remove_hands_back_the_previous_cell() {
    let mut ship = Ship::new();
    ship.place(IVec2::new(5, 5), ModuleKind::Thruster);
    assert_eq!(ship.remove(IVec2::new(5, 5)), Some(Cell { kind: ModuleKind::Thruster }));
    assert_eq!(ship.remove(IVec2::new(5, 5)), None);
    assert_eq!(ship.get(IVec2::new(5, 5)), None);
}

#[test]
fn removing_a_placed_module_restores_the_totals() {
    let mut ship = Ship::new();
    ship.place(IVec2::new(0, 0), ModuleKind::Reactor);
    ship.place(IVec2::new(0, 1), ModuleKind::Hull);
    let (mass, power, thrust) = (ship.total_mass(), ship.power_balance(), ship.total_thrust());
    ship.place(IVec2::new(7, 7), ModuleKind::Thruster);
    assert_eq!(ship.total_mass(), mass + 2);
    assert_eq!(ship.power_balance(), power - 5);
    assert_eq!(ship.total_thrust(), thrust + 10);
    ship.remove(IVec2::new(7, 7));
    assert_eq!((ship.total_mass(), ship.power_balance(), ship.total_thrust()), (mass, power, thrust));
}

#[test]
fn kind_counts_add_up_to_the_cell_count() {
    let mut ship = Ship::new();
    for (i, kind) in [
        ModuleKind::Hull,
        ModuleKind::Hull,
        ModuleKind::Thruster,
        ModuleKind::Reactor,
        ModuleKind::Hull,
    ]
    .into_iter()
    .enumerate()
    {
        ship.place(IVec2::new(i as i32, -(i as i32)), kind);
    }
    let counts = [
        ship.count_kind(ModuleKind::Hull),
        ship.count_kind(ModuleKind::Thruster),
        ship.count_kind(ModuleKind::Reactor),
    ];
    assert_eq!(counts, [3, 1, 1]);
    assert_eq!(counts.iter().sum::<usize>(), ship.cells().len());
    assert_eq!(ship.total_mass(), 3 + 2 + 4);
}

#[test]
fn empty_blueprint_has_zero_totals() {
    let ship = Ship::new();
    assert!(ship.is_empty());
    assert!(ship.cells().is_empty());
    assert_eq!((ship.total_mass(), ship.power_balance(), ship.total_thrust()), (0, 0, 0));
}

#[test]
fn cells_lists_every_cell_once() {
    let mut ship = Ship::new();
    let spots = [(0, 0), (i32::MIN, i32::MAX), (i32::MAX, i32::MIN), (-1, -1), (3, 4)];
    for (x, y) in spots {
        ship.place(IVec2::new(x, y), ModuleKind::Hull);
    }
    let mut listed: Vec<(i32, i32)> = ship.cells().iter().map(|(p, _)| (p.x, p.y)).collect();
    listed.sort();
    let mut expected = spots.to_vec();
    expected.sort();
    assert_eq!(listed, expected);
}

#[test]
fn module_defs_carry_their_figures() {
    let hull = ModuleKind::Hull.def();
    assert_eq!((hull.kind, hull.name, hull.mass, hull.power, hull.thrust), (ModuleKind::Hull, "Hull", 1, 0, 0));
    let thruster = ModuleKind::Thruster.def();
    assert_eq!(
        (thruster.kind, thruster.name, thruster.mass, thruster.power, thruster.thrust),
        (ModuleKind::Thruster, "Thruster", 2, -5, 10)
    );
    let reactor = ModuleKind::Reactor.def();
    assert_eq!(
        (reactor.kind, reactor.name, reactor.mass, reactor.power, reactor.thrust),
        (ModuleKind::Reactor, "Reactor", 4, 20, 0)
    );
    assert_eq!(ModuleKind::ALL.map(|k| k.def().kind), ModuleKind::ALL);
    let blank = ModuleDef::default();
    assert_eq!((blank.kind, blank.name, blank.mass), (ModuleKind::Hull, "", 0));
    assert_eq!(ModuleKind::default(), ModuleKind::Hull);
}
