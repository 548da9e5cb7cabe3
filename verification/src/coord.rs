//! Grid positions and the four-way direction enum with its unit-vector
//! mapping. Pure value arithmetic: no side effects, no failure modes.

use vstd::prelude::*;

verus! {

/// A cell position on the grid: a signed 2D integer vector. It may be
/// transiently negative or out of bounds before a bounds check.
#[derive(Copy, Clone, Debug, PartialEq, Eq, Structural)]
pub struct Coordinate {
    pub x: isize,
    pub y: isize,
}

/// Two cells differ by exactly one orthogonal unit step.
pub open spec fn adjacent(a: Coordinate, b: Coordinate) -> bool {
    ||| (a.x == b.x && (a.y - b.y == 1 || b.y - a.y == 1))
    ||| (a.y == b.y && (a.x - b.x == 1 || b.x - a.x == 1))
}

impl Coordinate {
    /// Component-wise vector addition.
    pub fn add(self, rhs: Coordinate) -> (r: Coordinate)
        requires
            isize::MIN <= self.x + rhs.x <= isize::MAX,
            isize::MIN <= self.y + rhs.y <= isize::MAX,
        ensures
            r.x == self.x + rhs.x,
            r.y == self.y + rhs.y,
    {
        Coordinate { x: self.x + rhs.x, y: self.y + rhs.y }
    }

    /// Component-wise vector subtraction.
    pub fn sub(self, rhs: Coordinate) -> (r: Coordinate)
        requires
            isize::MIN <= self.x - rhs.x <= isize::MAX,
            isize::MIN <= self.y - rhs.y <= isize::MAX,
        ensures
            r.x == self.x - rhs.x,
            r.y == self.y - rhs.y,
    {
        Coordinate { x: self.x - rhs.x, y: self.y - rhs.y }
    }

    /// Scalar multiplication of both components.
    pub fn mul(self, k: isize) -> (r: Coordinate)
        requires
            isize::MIN <= k * self.x <= isize::MAX,
            isize::MIN <= k * self.y <= isize::MAX,
        ensures
            r.x == k * self.x,
            r.y == k * self.y,
    {
        Coordinate { x: k * self.x, y: k * self.y }
    }
}

impl From<(isize, isize)> for Coordinate {
    fn from(pair: (isize, isize)) -> (r: Coordinate) {
        Coordinate { x: pair.0, y: pair.1 }
    }
}

impl vstd::std_specs::convert::FromSpecImpl<(isize, isize)> for Coordinate {
    open spec fn obeys_from_spec() -> bool {
        true
    }

    open spec fn from_spec(pair: (isize, isize)) -> Coordinate {
        Coordinate { x: pair.0, y: pair.1 }
    }
}

/// One of the four cardinal headings.
#[derive(Copy, Clone, Debug, PartialEq, Eq, Structural)]
pub enum Direction {
    Up,
    Down,
    Left,
    Right,
}

/// A key observed by the host. Arrow keys steer; every other key is
/// reported as `Other` and absorbed as a no-op.
#[derive(Copy, Clone, Debug, PartialEq, Eq, Structural)]
pub enum KeyCode {
    Up,
    Down,
    Left,
    Right,
    Other,
}

impl Direction {
    /// The unit vector this heading moves along, with y growing downward.
    pub open spec fn spec_unit(self) -> (int, int) {
        match self {
            Direction::Up => (0int, -1int),
            Direction::Down => (0int, 1int),
            Direction::Left => (-1int, 0int),
            Direction::Right => (1int, 0int),
        }
    }

    /// The opposite heading.
    pub open spec fn spec_reverse(self) -> Direction {
        match self {
            Direction::Up => Direction::Down,
            Direction::Down => Direction::Up,
            Direction::Left => Direction::Right,
            Direction::Right => Direction::Left,
        }
    }

    /// Map this heading to its unit displacement vector.
    pub fn to_relative_coordinate(self) -> (r: Coordinate)
        ensures
            r.x == self.spec_unit().0,
            r.y == self.spec_unit().1,
    {
        match self {
            Direction::Up => Coordinate { x: 0, y: -1 },
            Direction::Down => Coordinate { x: 0, y: 1 },
            Direction::Left => Coordinate { x: -1, y: 0 },
            Direction::Right => Coordinate { x: 1, y: 0 },
        }
    }

    /// Which direction a key steers toward; unrecognized keys steer nowhere.
    pub fn from_key(key: KeyCode) -> (r: Option<Direction>)
        ensures
            r == match key {
                KeyCode::Up => Some(Direction::Up),
                KeyCode::Down => Some(Direction::Down),
                KeyCode::Left => Some(Direction::Left),
                KeyCode::Right => Some(Direction::Right),
                KeyCode::Other => None::<Direction>,
            },
    {
        match key {
            KeyCode::Up => Some(Direction::Up),
            KeyCode::Down => Some(Direction::Down),
            KeyCode::Left => Some(Direction::Left),
            KeyCode::Right => Some(Direction::Right),
            KeyCode::Other => None,
        }
    }
}

/// Distinct directions have distinct unit vectors, and reversing negates
/// the unit vector; this is what makes the anti-reversal test by vector
/// comparison equivalent to a test by direction.
pub proof fn lemma_unit_injective(a: Direction, b: Direction)
    ensures
        a.spec_unit() == b.spec_unit() ==> a == b,
        a.spec_reverse().spec_unit().0 == -a.spec_unit().0,
        a.spec_reverse().spec_unit().1 == -a.spec_unit().1,
{
}

} // verus!
