//! The module kinds of a ship blueprint, with their fixed masses, power and
//! thrust.
use vstd::prelude::*;

verus! {

/// What a blueprint cell is built from.
#[derive(Debug, Clone, Copy, PartialEq, Eq, Hash, Default, Structural)]
pub enum ModuleKind {
    #[default]
    Hull,
    Thruster,
    Reactor,
}

/// The fixed figures of one module kind. Mass, power and thrust are whole
/// units; power is negative for a module that draws it.
#[derive(Debug, Clone, PartialEq)]
pub struct ModuleDef {
    pub kind: ModuleKind,
    pub name: &'static str,
    pub mass: i32,
    pub power: i32,
    pub thrust: i32,
}

/// The display name of a module kind.
pub open spec fn module_name(kind: ModuleKind) -> Seq<char> {
    match kind {
        ModuleKind::Hull => "Hull"@,
        ModuleKind::Thruster => "Thruster"@,
        ModuleKind::Reactor => "Reactor"@,
    }
}

/// The mass of one module of `kind`.
pub open spec fn module_mass(kind: ModuleKind) -> int {
    match kind {
        ModuleKind::Hull => 1,
        ModuleKind::Thruster => 2,
        ModuleKind::Reactor => 4,
    }
}

/// The power one module of `kind` adds (negative: draws).
pub open spec fn module_power(kind: ModuleKind) -> int {
    match kind {
        ModuleKind::Hull => 0,
        ModuleKind::Thruster => -5,
        ModuleKind::Reactor => 20,
    }
}

/// The thrust of one module of `kind`.
pub open spec fn module_thrust(kind: ModuleKind) -> int {
    match kind {
        ModuleKind::Hull => 0,
        ModuleKind::Thruster => 10,
        ModuleKind::Reactor => 0,
    }
}

impl ModuleKind {
    pub const ALL: [ModuleKind; 3] = [ModuleKind::Hull, ModuleKind::Thruster, ModuleKind::Reactor];

    /// The figures of this kind.
    pub fn def(self) -> (d: ModuleDef)
        ensures
            d.kind == self,
            d.name@ == module_name(self),
            d.mass == module_mass(self),
            d.power == module_power(self),
            d.thrust == module_thrust(self),
    {
        match self {
            ModuleKind::Hull => ModuleDef {
                kind: self,
                name: "Hull",
                mass: 1,
                power: 0,
                thrust: 0,
            },
            ModuleKind::Thruster => ModuleDef {
                kind: self,
                name: "Thruster",
                mass: 2,
                power: -5,
                thrust: 10,
            },
            ModuleKind::Reactor => ModuleDef {
                kind: self,
                name: "Reactor",
                mass: 4,
                power: 20,
                thrust: 0,
            },
        }
    }
}

impl Default for ModuleDef {
    /// A hull entry with no name and no figures.
    fn default() -> (d: ModuleDef)
        ensures
            d.kind == ModuleKind::Hull,
            d.name@ == Seq::<char>::empty(),
            d.mass == 0,
            d.power == 0,
            d.thrust == 0,
    {
        let d = ModuleDef { kind: ModuleKind::Hull, name: "", mass: 0, power: 0, thrust: 0 };
        proof {
            reveal_strlit("");
        }
        d
    }
}

} // verus!
