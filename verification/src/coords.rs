//! Grid coordinates.
//!
//! A coordinate addresses one cell of the raster. Coordinates may lie outside
//! the raster (the pointer can be dragged off the canvas); raster writes at
//! such coordinates are no-ops. Coordinates handed to line rasterization are
//! kept within `COORD_LIMIT` so that stepping along a line can never overflow
//! `i32` arithmetic.

use vstd::prelude::*;

verus! {

/// Coordinates recorded by drawing events stay within this bound on each
/// axis, so that the difference of two of them fits comfortably in `i32`.
pub const COORD_LIMIT: i32 = 0x2000_0000;

#[derive(Clone, Copy, Debug, PartialEq, Eq, Structural)]
pub struct Coord {
    pub x: i32,
    pub y: i32,
}

impl Coord {
    pub fn new(x: i32, y: i32) -> (r: Self)
        ensures
            r == (Coord { x, y }),
    {
        Coord { x, y }
    }

    /// Both axes within `COORD_LIMIT` in magnitude.
    pub open spec fn bounded(self) -> bool {
        -COORD_LIMIT <= self.x <= COORD_LIMIT && -COORD_LIMIT <= self.y <= COORD_LIMIT
    }
}

/// Cardinal (4-connected) adjacency: the two coordinates differ by exactly one
/// step along exactly one axis.
pub open spec fn adjacent(a: Coord, b: Coord) -> bool {
    ||| (a.x == b.x && (a.y - b.y == 1 || b.y - a.y == 1))
    ||| (a.y == b.y && (a.x - b.x == 1 || b.x - a.x == 1))
}

} // verus!
