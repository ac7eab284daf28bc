//! The kinds of module a ship cell can hold.
use vstd::prelude::*;

verus! {

/// What a ship cell is built from.
#[derive(Debug, Clone, Copy, PartialEq, Eq, Hash, Default, Structural)]
pub enum ShipModuleKind {
    #[default]
    Hull,
    Thruster,
    Reactor,
}

/// The display name of a module kind.
pub open spec fn kind_name(kind: ShipModuleKind) -> Seq<char> {
    match kind {
        ShipModuleKind::Hull => "Hull"@,
        ShipModuleKind::Thruster => "Thruster"@,
        ShipModuleKind::Reactor => "Reactor"@,
    }
}

impl ShipModuleKind {
    pub const ALL: [ShipModuleKind; 3] = [
        ShipModuleKind::Hull,
        ShipModuleKind::Thruster,
        ShipModuleKind::Reactor,
    ];

    /// The name shown for this kind in the editor.
    pub fn name(self) -> (r: &'static str)
        ensures
            r@ == kind_name(self),
    {
        match self {
            ShipModuleKind::Hull => "Hull",
            ShipModuleKind::Thruster => "Thruster",
            ShipModuleKind::Reactor => "Reactor",
        }
    }
}

/// A choice of module kinds, one flag per kind.
#[derive(Debug, Clone, Copy, PartialEq, Eq, Structural)]
pub struct KindSet {
    pub hull: bool,
    pub thruster: bool,
    pub reactor: bool,
}

impl KindSet {
    /// Whether `kind` is chosen.
    pub open spec fn has(self, kind: ShipModuleKind) -> bool {
        match kind {
            ShipModuleKind::Hull => self.hull,
            ShipModuleKind::Thruster => self.thruster,
            ShipModuleKind::Reactor => self.reactor,
        }
    }

    /// Whether `kind` is chosen.
    pub fn contains(&self, kind: ShipModuleKind) -> (r: bool)
        ensures
            r == self.has(kind),
            kind == ShipModuleKind::Hull ==> r == self.hull,
            kind == ShipModuleKind::Thruster ==> r == self.thruster,
            kind == ShipModuleKind::Reactor ==> r == self.reactor,
    {
        match kind {
            ShipModuleKind::Hull => self.hull,
            ShipModuleKind::Thruster => self.thruster,
            ShipModuleKind::Reactor => self.reactor,
        }
    }
}

} // verus!

verus! {

/// A kind set selects exactly the kinds whose flag is set, and no other.
pub proof fn lemma_kind_set_selects_its_flags(s: KindSet)
    ensures
        s.has(ShipModuleKind::Hull) == s.hull,
        s.has(ShipModuleKind::Thruster) == s.thruster,
        s.has(ShipModuleKind::Reactor) == s.reactor,
{
}

} // verus!

verus! {

/// The colour each module kind is painted in.
#[derive(Debug, Clone, Copy, PartialEq, Eq, Structural)]
pub struct ModuleColors {
    pub hull: crate::color::Color,
    pub thruster: crate::color::Color,
    pub reactor: crate::color::Color,
}

impl ModuleColors {
    /// The colour of `kind`.
    pub open spec fn of(self, kind: ShipModuleKind) -> crate::color::Color {
        match kind {
            ShipModuleKind::Hull => self.hull,
            ShipModuleKind::Thruster => self.thruster,
            ShipModuleKind::Reactor => self.reactor,
        }
    }

    /// The colour of `kind`.
    pub fn color(&self, kind: ShipModuleKind) -> (c: crate::color::Color)
        ensures
            c == self.of(kind),
            kind == ShipModuleKind::Hull ==> c == self.hull,
            kind == ShipModuleKind::Thruster ==> c == self.thruster,
            kind == ShipModuleKind::Reactor ==> c == self.reactor,
    {
        match kind {
            ShipModuleKind::Hull => self.hull,
            ShipModuleKind::Thruster => self.thruster,
            ShipModuleKind::Reactor => self.reactor,
        }
    }
}

/// Each kind is painted in its own colour: the hull colour for hulls, the
/// thruster colour for thrusters, the reactor colour for reactors.
pub proof fn lemma_each_kind_has_its_own_colour(c: ModuleColors)
    ensures
        c.of(ShipModuleKind::Hull) == c.hull,
        c.of(ShipModuleKind::Thruster) == c.thruster,
        c.of(ShipModuleKind::Reactor) == c.reactor,
{
}

} // verus!
