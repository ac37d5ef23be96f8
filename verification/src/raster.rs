//! The raster: a fixed-size 2-D grid of composited cells.
//!
//! The raster owns the settled visual state of the canvas. Writes compose the
//! incoming cell over the stored one; clears reset a cell to the transparent
//! default; out-of-bounds writes and clears are no-ops, never errors. The
//! dimensions are fixed at construction.

use vstd::prelude::*;
use crate::cell::{compose_cell, RenderCell};
use crate::colour::{blend_rgba, Rgba32};
use crate::cell::blend_opt_exec;
use crate::coords::Coord;

verus! {

/// Largest accepted width or height of a raster. Keeps every cell index below
/// `2^30`, so index arithmetic fits in `usize` and coordinate arithmetic in
/// `i32` on every platform.
pub const MAX_DIM: u32 = 0x8000;

/// The mathematical value of a raster: its dimensions and its cells in
/// row-major order.
pub struct GridV {
    pub width: int,
    pub height: int,
    pub cells: Seq<RenderCell>,
}

impl GridV {
    pub open spec fn wf(self) -> bool {
        &&& 0 <= self.width <= MAX_DIM
        &&& 0 <= self.height <= MAX_DIM
        &&& self.cells.len() == self.width * self.height
    }

    pub open spec fn in_bounds(self, c: Coord) -> bool {
        0 <= c.x < self.width && 0 <= c.y < self.height
    }

    /// Row-major index of an in-bounds coordinate.
    pub open spec fn idx(self, c: Coord) -> int {
        c.y * self.width + c.x
    }

    /// The stored cell at an in-bounds coordinate.
    pub open spec fn at(self, c: Coord) -> RenderCell {
        self.cells[self.idx(c)]
    }

    /// The grid after a point write: in bounds, the incoming cell composed
    /// over the stored one; out of bounds, unchanged.
    pub open spec fn set(self, c: Coord, cell: RenderCell) -> GridV {
        if self.in_bounds(c) {
            GridV { cells: self.cells.update(self.idx(c), compose_cell(self.at(c), cell)), ..self }
        } else {
            self
        }
    }

    /// The grid after a point clear: in bounds, the stored cell reset to the
    /// transparent default (every channel zeroed, not composed); out of
    /// bounds, unchanged.
    pub open spec fn clear(self, c: Coord) -> GridV {
        if self.in_bounds(c) {
            GridV { cells: self.cells.update(self.idx(c), RenderCell::blank_spec()), ..self }
        } else {
            self
        }
    }

    /// The grid after a plain overwrite: in bounds, the stored cell replaced
    /// (not composed); out of bounds, unchanged.
    pub open spec fn put(self, c: Coord, cell: RenderCell) -> GridV {
        if self.in_bounds(c) {
            GridV { cells: self.cells.update(self.idx(c), cell), ..self }
        } else {
            self
        }
    }

    /// The coordinate whose row-major index is `i`.
    pub open spec fn coord_of(self, i: int) -> Coord {
        Coord { x: (i % self.width) as i32, y: (i / self.width) as i32 }
    }
}

/// Every index within the grid is the index of an in-bounds coordinate.
pub proof fn lemma_idx_coord_of(g: GridV, i: int)
    requires
        g.wf(),
        0 <= i < g.cells.len(),
    ensures
        g.in_bounds(g.coord_of(i)),
        g.idx(g.coord_of(i)) == i,
{
    assert(0 < g.width) by {
        if g.width == 0 {
            assert(g.cells.len() == 0) by (nonlinear_arith)
                requires
                    g.cells.len() == g.width * g.height,
                    g.width == 0,
            ;
        }
    }
    assert(0 <= i % g.width < g.width && 0 <= i / g.width < g.height && (i / g.width) * g.width + i
        % g.width == i) by (nonlinear_arith)
        requires
            0 < g.width,
            0 <= i < g.width * g.height,
    ;
}

/// An in-bounds coordinate's row-major index lies within the grid.
pub proof fn lemma_idx_bounds(g: GridV, c: Coord)
    requires
        g.wf(),
        g.in_bounds(c),
    ensures
        0 <= g.idx(c) < g.cells.len(),
        g.idx(c) < 0x4000_0000,
{
    assert(c.y * g.width + c.x < g.height * g.width) by (nonlinear_arith)
        requires
            0 <= c.x < g.width,
            0 <= c.y < g.height,
    ;
    assert(g.height * g.width == g.width * g.height) by (nonlinear_arith);
    assert(g.height * g.width <= MAX_DIM * MAX_DIM) by (nonlinear_arith)
        requires
            0 <= g.width <= MAX_DIM,
            0 <= g.height <= MAX_DIM,
    ;
}

/// Row-major indexing is injective on in-bounds coordinates.
pub proof fn lemma_idx_injective(g: GridV, a: Coord, b: Coord)
    requires
        g.wf(),
        g.in_bounds(a),
        g.in_bounds(b),
        g.idx(a) == g.idx(b),
    ensures
        a == b,
{
    assert(a.x == b.x && a.y == b.y) by (nonlinear_arith)
        requires
            0 <= a.x < g.width,
            0 <= a.y < g.height,
            0 <= b.x < g.width,
            0 <= b.y < g.height,
            a.y * g.width + a.x == b.y * g.width + b.x,
    ;
}

/// A fixed-size grid of styled cells, stored in row-major order.
pub struct Raster {
    width: u32,
    height: u32,
    cells: Vec<RenderCell>,
}

impl View for Raster {
    type V = GridV;

    closed spec fn view(&self) -> GridV {
        GridV { width: self.width as int, height: self.height as int, cells: self.cells@ }
    }
}

impl Raster {
    pub open spec fn wf(self) -> bool {
        self@.wf()
    }

    /// A raster of the given dimensions with every cell initialized to the
    /// fully-transparent default.
    pub fn new(width: u32, height: u32) -> (r: Self)
        requires
            width <= MAX_DIM,
            height <= MAX_DIM,
        ensures
            r.wf(),
            r@.width == width,
            r@.height == height,
            forall|i: int| 0 <= i < r@.cells.len() ==> r@.cells[i] == RenderCell::blank_spec(),
    {
        proof {
            assert(width * height <= MAX_DIM * MAX_DIM) by (nonlinear_arith)
                requires
                    width <= MAX_DIM,
                    height <= MAX_DIM,
            ;
        }
        let n: usize = (width as usize) * (height as usize);
        let mut cells: Vec<RenderCell> = Vec::new();
        let mut i: usize = 0;
        while i < n
            invariant
                i <= n,
                cells@.len() == i,
                forall|k: int| 0 <= k < i ==> cells@[k] == RenderCell::blank_spec(),
            decreases n - i,
        {
            cells.push(RenderCell::blank());
            i = i + 1;
        }
        Raster { width, height, cells }
    }

    /// The stored cells in row-major order, for the surrounding layer to
    /// persist or render.
    pub fn cells(&self) -> (r: &Vec<RenderCell>)
        ensures
            r@ == self@.cells,
    {
        &self.cells
    }

    /// Rebuild a raster from persisted parts, validating that the dimensions
    /// are within range and that the cells fill the grid exactly.
    pub fn from_cells(width: u32, height: u32, cells: Vec<RenderCell>) -> (r: Option<Raster>)
        ensures
            r is Some <==> width <= MAX_DIM && height <= MAX_DIM && cells@.len() == width * height,
            r is Some ==> r->0.wf() && r->0@ == (GridV {
                width: width as int,
                height: height as int,
                cells: cells@,
            }),
    {
        if width > MAX_DIM || height > MAX_DIM {
            return None;
        }
        proof {
            assert(width * height <= MAX_DIM * MAX_DIM) by (nonlinear_arith)
                requires
                    width <= MAX_DIM,
                    height <= MAX_DIM,
            ;
        }
        let n: usize = (width as usize) * (height as usize);
        if cells.len() != n {
            return None;
        }
        Some(Raster { width, height, cells })
    }

    pub fn width(&self) -> (w: u32)
        ensures
            w == self@.width,
    {
        self.width
    }

    pub fn height(&self) -> (h: u32)
        ensures
            h == self@.height,
    {
        self.height
    }

    /// Whether a coordinate addresses a cell of this raster.
    pub fn contains_coord(&self, c: Coord) -> (r: bool)
        requires
            self.wf(),
        ensures
            r == self@.in_bounds(c),
    {
        0 <= c.x && (c.x as i64) < (self.width as i64) && 0 <= c.y && (c.y as i64) < (self.height
            as i64)
    }

    /// Row-major index of an in-bounds coordinate.
    pub(crate) fn idx_exec(&self, c: Coord) -> (i: usize)
        requires
            self.wf(),
            self@.in_bounds(c),
        ensures
            i == self@.idx(c),
            i < self@.cells.len(),
    {
        proof {
            lemma_idx_bounds(self@, c);
            assert(c.y * (self@.width) + c.x == self@.idx(c));
            assert(c.y * (self@.width) <= self@.idx(c));
        }
        (c.y as usize) * (self.width as usize) + (c.x as usize)
    }

    /// The stored cell at a coordinate, `None` out of bounds.
    pub fn get(&self, c: Coord) -> (r: Option<RenderCell>)
        requires
            self.wf(),
        ensures
            r == if self@.in_bounds(c) {
                Some(self@.at(c))
            } else {
                None::<RenderCell>
            },
    {
        if self.contains_coord(c) {
            let i = self.idx_exec(c);
            Some(self.cells[i])
        } else {
            None
        }
    }

    /// How one styled cell visually combines with another: `top` painted over
    /// `bottom`, channelwise alpha compositing with `top`'s character and
    /// emphasis taking precedence where present.
    pub fn stack_render_cells(bottom: RenderCell, top: RenderCell) -> (r: RenderCell)
        ensures
            r == compose_cell(bottom, top),
    {
        let bottom_fg_base = if bottom.character.is_none() {
            bottom.style.background
        } else {
            bottom.style.foreground
        };
        RenderCell {
            character: if top.character.is_some() {
                top.character
            } else {
                bottom.character
            },
            style: crate::cell::Style {
                foreground: blend_opt_exec(top.style.foreground, bottom_fg_base),
                background: blend_opt_exec(top.style.background, bottom.style.background),
                bold: if top.style.bold.is_some() {
                    top.style.bold
                } else {
                    bottom.style.bold
                },
                underline: if top.style.underline.is_some() {
                    top.style.underline
                } else {
                    bottom.style.underline
                },
            },
        }
    }

    /// Compose `cell` over the stored cell at `c`; no-op out of bounds.
    pub fn set_coord(&mut self, c: Coord, cell: RenderCell)
        requires
            old(self).wf(),
        ensures
            final(self).wf(),
            final(self)@ == old(self)@.set(c, cell),
    {
        if self.contains_coord(c) {
            let i = self.idx_exec(c);
            let composed = Self::stack_render_cells(self.cells[i], cell);
            self.cells.set(i, composed);
        }
    }

    /// Replace the stored cell at `c` outright (no compositing); no-op out of
    /// bounds. This is how an in-progress stroke's preview is laid over a
    /// copy of the committed raster: the preview wins where it covers.
    pub fn put_coord(&mut self, c: Coord, cell: RenderCell)
        requires
            old(self).wf(),
        ensures
            final(self).wf(),
            final(self)@ == old(self)@.put(c, cell),
    {
        if self.contains_coord(c) {
            let i = self.idx_exec(c);
            self.cells.set(i, cell);
        }
    }

    /// Reset the stored cell at `c` to the transparent default; no-op out of
    /// bounds.
    pub fn clear_coord(&mut self, c: Coord)
        requires
            old(self).wf(),
        ensures
            final(self).wf(),
            final(self)@ == old(self)@.clear(c),
    {
        if self.contains_coord(c) {
            let i = self.idx_exec(c);
            self.cells.set(i, RenderCell::blank());
        }
    }
}

impl Clone for Raster {
    fn clone(&self) -> (r: Self)
        ensures
            r@ == self@,
    {
        let mut cells: Vec<RenderCell> = Vec::new();
        let mut i: usize = 0;
        while i < self.cells.len()
            invariant
                i <= self.cells@.len(),
                cells@ == self.cells@.take(i as int),
            decreases self.cells@.len() - i,
        {
            cells.push(self.cells[i]);
            proof {
                assert(cells@ == self.cells@.take(i + 1 as int));
            }
            i = i + 1;
        }
        proof {
            assert(cells@ == self.cells@);
        }
        Raster { width: self.width, height: self.height, cells }
    }
}

} // verus!
