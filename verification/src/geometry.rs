//! Grid coordinates and the small integer helpers the resolvers share.

use vstd::prelude::*;

verus! {

/// Largest absolute coordinate a tile on the grid may have.
pub const GRID_LIMIT: i64 = 1_000_000_000;

/// A tile of the grid. For an actor it names the south-west tile of its
/// footprint.
#[derive(Clone, Copy, Debug, PartialEq, Eq, Hash, Structural)]
pub struct Position {
    pub x: i64,
    pub y: i64,
}

/// A displacement between two tiles, one signed tile count per axis.
#[derive(Clone, Copy, Debug, PartialEq, Eq, Hash, Structural)]
pub struct Delta {
    pub x: i64,
    pub y: i64,
}

/// Identifier of an actor: the index of its slot in the world.
#[derive(Clone, Copy, Debug, PartialEq, Eq, Hash, Structural)]
pub struct EntityId(pub usize);

/// Absolute value of a mathematical integer.
pub open spec fn abs(v: int) -> int {
    if v < 0 {
        -v
    } else {
        v
    }
}

/// Sign of a mathematical integer: -1, 0 or 1.
pub open spec fn signum(v: int) -> int {
    if v < 0 {
        -1
    } else if v == 0 {
        0
    } else {
        1
    }
}

/// The smaller of two mathematical integers.
pub open spec fn min(a: int, b: int) -> int {
    if a <= b {
        a
    } else {
        b
    }
}

/// The larger of two mathematical integers.
pub open spec fn max(a: int, b: int) -> int {
    if a >= b {
        a
    } else {
        b
    }
}

/// Whether one coordinate lies on the grid.
pub open spec fn coord_in_bounds(v: int) -> bool {
    -(GRID_LIMIT as int) <= v <= GRID_LIMIT as int
}

impl Position {
    /// Whether both coordinates lie on the grid.
    pub open spec fn in_bounds(self) -> bool {
        coord_in_bounds(self.x as int) && coord_in_bounds(self.y as int)
    }

    /// The tile at `(x, y)`.
    pub fn new(x: i64, y: i64) -> (p: Position)
        ensures
            p.x == x,
            p.y == y,
    {
        Position { x, y }
    }

    /// The origin tile `(0, 0)`.
    pub fn origin() -> (p: Position)
        ensures
            p.x == 0,
            p.y == 0,
            p.in_bounds(),
    {
        Position { x: 0, y: 0 }
    }

    /// Tests whether the tile lies on the grid.
    pub fn is_in_bounds(&self) -> (b: bool)
        ensures
            b == self.in_bounds(),
    {
        -GRID_LIMIT <= self.x && self.x <= GRID_LIMIT && -GRID_LIMIT <= self.y && self.y
            <= GRID_LIMIT
    }
}

/// Absolute value of a coordinate difference.
pub fn abs_i64(v: i64) -> (r: i64)
    requires
        v > i64::MIN,
    ensures
        r == abs(v as int),
{
    if v < 0 {
        -v
    } else {
        v
    }
}

/// Sign of a coordinate difference.
pub fn signum_i64(v: i64) -> (r: i64)
    ensures
        r == signum(v as int),
{
    if v < 0 {
        -1
    } else if v == 0 {
        0
    } else {
        1
    }
}

} // verus!
