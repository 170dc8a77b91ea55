//! The part of the tile grid that has been laid out so far.

use vstd::prelude::*;

verus! {

/// A tile of the laid-out grid.
#[derive(Debug, Hash, PartialEq, Eq, Clone, Copy, Structural)]
pub struct Coord {
    pub x: isize,
    pub y: isize,
}

impl Default for Coord {
    fn default() -> (c: Coord)
        ensures
            c == (Coord { x: 0, y: 0 }),
    {
        Coord { x: 0, y: 0 }
    }
}

/// A rectangle of tiles, given by its south-west and its north-east corner,
/// both included.
#[derive(Debug, PartialEq, Eq, Clone, Copy, Structural)]
pub struct Extents {
    pub min: Coord,
    pub max: Coord,
}

impl Default for Extents {
    fn default() -> (e: Extents)
        ensures
            e == (Extents { min: Coord { x: 0, y: 0 }, max: Coord { x: 0, y: 0 } }),
    {
        Extents { min: Coord { x: 0, y: 0 }, max: Coord { x: 0, y: 0 } }
    }
}

impl Extents {
    /// Whether the rectangle holds the tile.
    pub open spec fn covers(self, c: Coord) -> bool {
        self.min.x <= c.x <= self.max.x && self.min.y <= c.y <= self.max.y
    }

    /// Tests whether the rectangle holds the tile.
    pub fn contains(&self, c: Coord) -> (b: bool)
        ensures
            b == self.covers(c),
    {
        self.min.x <= c.x && c.x <= self.max.x && self.min.y <= c.y && c.y <= self.max.y
    }

    /// The smallest rectangle that holds both rectangles.
    pub fn union(&self, other: &Extents) -> (u: Extents)
        ensures
            u.min.x == (if self.min.x <= other.min.x {
                self.min.x
            } else {
                other.min.x
            }),
            u.min.y == (if self.min.y <= other.min.y {
                self.min.y
            } else {
                other.min.y
            }),
            u.max.x == (if self.max.x >= other.max.x {
                self.max.x
            } else {
                other.max.x
            }),
            u.max.y == (if self.max.y >= other.max.y {
                self.max.y
            } else {
                other.max.y
            }),
            forall|c: Coord| self.covers(c) || other.covers(c) ==> u.covers(c),
    {
        Extents {
            min: Coord {
                x: if self.min.x <= other.min.x {
                    self.min.x
                } else {
                    other.min.x
                },
                y: if self.min.y <= other.min.y {
                    self.min.y
                } else {
                    other.min.y
                },
            },
            max: Coord {
                x: if self.max.x >= other.max.x {
                    self.max.x
                } else {
                    other.max.x
                },
                y: if self.max.y >= other.max.y {
                    self.max.y
                } else {
                    other.max.y
                },
            },
        }
    }
}

} // verus!
