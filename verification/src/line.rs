//! Straight-line rasterization between two grid coordinates.
//!
//! The rasterization itself is the `line_2d` crate's `coords_between`; its
//! output is a pure function of the two endpoints, named here as
//! `line_between` so that contracts can speak of it exactly.

use vstd::prelude::*;
use crate::coords::Coord;

verus! {

/// The rasterized straight line from `(ax, ay)` to `(bx, by)`, both endpoints
/// included, as `line_2d::coords_between` produces it.
pub uninterp spec fn line_between(ax: int, ay: int, bx: int, by: int) -> Seq<Coord>;

/// The line from `a` to `b`, named over coordinates.
pub open spec fn line_seq(a: Coord, b: Coord) -> Seq<Coord> {
    line_between(a.x as int, a.y as int, b.x as int, b.y as int)
}

/// Relies on `line_2d::coords_between`: an iterator over all the coordinates
/// between `start` and `end` (inclusive) along a straight rasterized line,
/// which begins on the start coordinate and ends with the end coordinate, one
/// coordinate per step, `max(|dx|, |dy|) + 1` steps in all. The endpoints are
/// kept within `COORD_LIMIT` so that the iterator's coordinate arithmetic
/// cannot overflow `i32` and it yields its full count of coordinates.
#[verifier::external_body]
pub(crate) fn line_coords(start: Coord, end: Coord) -> (r: Vec<Coord>)
    requires
        start.bounded(),
        end.bounded(),
    ensures
        r@ == line_between(start.x as int, start.y as int, end.x as int, end.y as int),
        r@.len() >= 1,
        r@[0] == start,
        r@[r@.len() - 1] == end,
{
    let a = coord_2d::ICoord::new(start.x, start.y);
    let b = coord_2d::ICoord::new(end.x, end.y);
    let mut out = Vec::new();
    for c in line_2d::coords_between(a, b) {
        out.push(Coord { x: c.x, y: c.y });
    }
    out
}

} // verus!
