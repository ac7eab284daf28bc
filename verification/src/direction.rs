//! The four cardinal directions of the ship grid.
use crate::vec::{in_i32_range, IVec2};
use vstd::prelude::*;

verus! {

/// A cardinal direction; north is `+y`, east is `+x`.
#[derive(Debug, Clone, Copy, PartialEq, Eq, Hash, Structural)]
pub enum Direction {
    East,
    West,
    North,
    South,
}

/// The unit offset of a direction.
pub open spec fn unit(d: Direction) -> (int, int) {
    match d {
        Direction::East => (1, 0),
        Direction::West => (-1, 0),
        Direction::North => (0, 1),
        Direction::South => (0, -1),
    }
}

/// The direction pointing the other way.
pub open spec fn opposite_of(d: Direction) -> Direction {
    match d {
        Direction::East => Direction::West,
        Direction::West => Direction::East,
        Direction::North => Direction::South,
        Direction::South => Direction::North,
    }
}

/// The fixed order in which directions are enumerated.
pub open spec fn all_directions() -> Seq<Direction> {
    seq![Direction::East, Direction::West, Direction::North, Direction::South]
}

/// The position one step from `p` toward `d`.
pub open spec fn step(p: (int, int), d: Direction) -> (int, int) {
    (p.0 + unit(d).0, p.1 + unit(d).1)
}

/// The position one step from `at` toward `d`, or `None` where that step
/// leaves the range of `i32` coordinates.
pub fn neighbor(at: IVec2, d: Direction) -> (r: Option<IVec2>)
    ensures
        match r {
            Some(n) => n@ == step(at@, d),
            None => !in_i32_range(step(at@, d)),
        },
{
    let u = d.as_ivec2();
    let x = at.x as i64 + u.x as i64;
    let y = at.y as i64 + u.y as i64;
    if x < i32::MIN as i64 || x > i32::MAX as i64 || y < i32::MIN as i64 || y > i32::MAX as i64 {
        None
    } else {
        Some(IVec2 { x: x as i32, y: y as i32 })
    }
}

impl Direction {
    pub const ALL: [Direction; 4] = [Direction::East, Direction::West, Direction::North, Direction::South];

    /// The unit grid offset of this direction.
    pub fn as_ivec2(self) -> (r: IVec2)
        ensures
            r@ == unit(self),
    {
        match self {
            Direction::East => IVec2 { x: 1, y: 0 },
            Direction::West => IVec2 { x: -1, y: 0 },
            Direction::North => IVec2 { x: 0, y: 1 },
            Direction::South => IVec2 { x: 0, y: -1 },
        }
    }

    /// The `i`-th direction of `ALL`.
    pub fn nth(i: usize) -> (d: Direction)
        requires
            i < 4,
        ensures
            d == all_directions()[i as int],
    {
        Direction::ALL[i]
    }

    /// The direction pointing the other way.
    pub fn opposite(self) -> (r: Direction)
        ensures
            r == opposite_of(self),
    {
        match self {
            Direction::East => Direction::West,
            Direction::West => Direction::East,
            Direction::North => Direction::South,
            Direction::South => Direction::North,
        }
    }
}

/// Turning around twice faces the original way again.
pub proof fn lemma_opposite_involution(d: Direction)
    ensures
        opposite_of(opposite_of(d)) == d,
        opposite_of(d) != d,
{
}

/// The opposite direction's offset is the negated offset, and every offset is a
/// single step along exactly one axis.
pub proof fn lemma_opposite_negates(d: Direction)
    ensures
        unit(opposite_of(d)).0 == -unit(d).0,
        unit(opposite_of(d)).1 == -unit(d).1,
        unit(d).0 == 0 ==> (unit(d).1 == 1 || unit(d).1 == -1),
        unit(d).1 == 0 ==> (unit(d).0 == 1 || unit(d).0 == -1),
        unit(d).0 == 0 || unit(d).1 == 0,
{
}

/// Distinct directions have distinct offsets.
pub proof fn lemma_unit_injective(a: Direction, b: Direction)
    ensures
        unit(a) == unit(b) <==> a == b,
{
}

} // verus!
