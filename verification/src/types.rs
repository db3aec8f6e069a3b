use vstd::prelude::*;

verus! {

/// A cell of the map, `(x, y)`.
pub type Pos = (usize, usize);

/// One of the four cardinal moves.
#[derive(Clone, Copy, Debug, PartialEq, Eq, Structural)]
pub enum Direction {
    Up,
    Down,
    Left,
    Right,
}

/// The displacement `(dx, dy)` of a direction, with `y` growing downwards.
pub open spec fn spec_delta(d: Direction) -> (i32, i32) {
    match d {
        Direction::Up => (0i32, -1i32),
        Direction::Down => (0i32, 1i32),
        Direction::Left => (-1i32, 0i32),
        Direction::Right => (1i32, 0i32),
    }
}

/// The direction that undoes `d`.
pub open spec fn opposite(d: Direction) -> Direction {
    match d {
        Direction::Up => Direction::Down,
        Direction::Down => Direction::Up,
        Direction::Left => Direction::Right,
        Direction::Right => Direction::Left,
    }
}

impl Direction {
    /// Converts the direction into its unit displacement vector.
    pub fn delta(self) -> (r: (i32, i32))
        ensures
            r == spec_delta(self),
    {
        match self {
            Direction::Up => (0, -1),
            Direction::Down => (0, 1),
            Direction::Left => (-1, 0),
            Direction::Right => (1, 0),
        }
    }
}

/// Every direction moves exactly one cell, and the opposite direction moves back.
pub proof fn lemma_delta_unit_and_reversible(d: Direction)
    ensures
        ({
            let (dx, dy) = spec_delta(d);
            &&& (dx == 0 || dy == 0)
            &&& (dx + dy == 1 || dx + dy == -1)
            &&& spec_delta(opposite(d)).0 == -dx
            &&& spec_delta(opposite(d)).1 == -dy
        }),
        opposite(opposite(d)) == d,
{
}

/// The two kinds of deposit.
#[derive(Clone, Copy, Debug, PartialEq, Eq, Structural)]
pub enum ResourceKind {
    Energy,
    Crystal,
}

/// A deposit on the map.
#[derive(Clone, Copy, Debug, PartialEq, Eq, Structural)]
pub struct Resource {
    pub kind: ResourceKind,
    pub quantity: u32,
}

} // verus!
