//! Pilot commands and the thruster faces a ship can fire.
use crate::direction::Direction;
use crate::vec::IVec2;
use vstd::prelude::*;

verus! {

/// One of the six motions a pilot can ask for.
#[derive(Debug, Clone, Copy, PartialEq, Eq, Structural)]
pub enum Command {
    Forward,
    Back,
    Right,
    Left,
    Ccw,
    Cw,
}

/// The slot of a command in per-command tables.
pub open spec fn command_slot(c: Command) -> int {
    match c {
        Command::Forward => 0,
        Command::Back => 1,
        Command::Right => 2,
        Command::Left => 3,
        Command::Ccw => 4,
        Command::Cw => 5,
    }
}

/// The commands in slot order.
pub open spec fn all_commands() -> Seq<Command> {
    seq![Command::Forward, Command::Back, Command::Right, Command::Left, Command::Ccw, Command::Cw]
}

impl Command {
    pub const ALL: [Command; 6] = [
        Command::Forward,
        Command::Back,
        Command::Right,
        Command::Left,
        Command::Ccw,
        Command::Cw,
    ];

    /// The slot of this command in per-command tables.
    pub fn index(self) -> (i: usize)
        ensures
            i == command_slot(self),
    {
        match self {
            Command::Forward => 0,
            Command::Back => 1,
            Command::Right => 2,
            Command::Left => 3,
            Command::Ccw => 4,
            Command::Cw => 5,
        }
    }
}

/// Every command has its own slot below six, and listing the commands in
/// order lists the slots in order.
pub proof fn lemma_command_slots(a: Command, b: Command)
    ensures
        0 <= command_slot(a) < 6,
        command_slot(a) == command_slot(b) <==> a == b,
        all_commands()[command_slot(a)] == a,
        all_commands().len() == 6,
{
}

/// A thruster cell face that can fire: pushing the ship toward `push`, with
/// its exhaust leaving through the opposite side.
#[derive(Debug, Clone, Copy, PartialEq, Eq, Structural)]
pub struct ThrustFace {
    /// The thruster cell this face belongs to.
    pub cell: IVec2,
    /// The cardinal direction the ship is pushed.
    pub push: Direction,
}

impl View for ThrustFace {
    type V = ((int, int), Direction);

    open spec fn view(&self) -> ((int, int), Direction) {
        (self.cell@, self.push)
    }
}

} // verus!
