//! Sequences of point writes and clears over a grid, and their pointwise
//! readings.
//!
//! Each drawing tool's commit is a fold of point operations over the grid;
//! the lemmas here restate those folds cell by cell, which is the form the
//! replay arguments and the laws about single cells need.

use vstd::prelude::*;
use crate::cell::{compose_cell, compose_n, lemma_compose_n_add, RenderCell};
use crate::coords::Coord;
use crate::raster::{lemma_idx_bounds, lemma_idx_injective, GridV};

verus! {

/// `cell` composed over each coordinate of `coords` in order, once per
/// occurrence; out-of-bounds coordinates are no-ops.
pub open spec fn paint_seq(g: GridV, coords: Seq<Coord>, cell: RenderCell) -> GridV
    decreases coords.len(),
{
    if coords.len() == 0 {
        g
    } else {
        paint_seq(g, coords.drop_last(), cell).set(coords.last(), cell)
    }
}

/// `cell` composed `n` times over the single coordinate `c`.
pub open spec fn paint_n(g: GridV, c: Coord, cell: RenderCell, n: nat) -> GridV
    decreases n,
{
    if n == 0 {
        g
    } else {
        paint_n(g, c, cell, (n - 1) as nat).set(c, cell)
    }
}

/// `cell` composed over each recorded pencil coordinate, as many times as its
/// visit count, entry by entry.
pub open spec fn pencil_paint(g: GridV, entries: Seq<(Coord, u32)>, cell: RenderCell) -> GridV
    decreases entries.len(),
{
    if entries.len() == 0 {
        g
    } else {
        paint_n(
            pencil_paint(g, entries.drop_last(), cell),
            entries.last().0,
            cell,
            entries.last().1 as nat,
        )
    }
}

/// Each coordinate of `coords` cleared to the transparent default, in order.
pub open spec fn clear_seq(g: GridV, coords: Seq<Coord>) -> GridV
    decreases coords.len(),
{
    if coords.len() == 0 {
        g
    } else {
        clear_seq(g, coords.drop_last()).clear(coords.last())
    }
}

/// Each (coordinate, cell) pair overwritten onto the grid in order: the
/// plain overlay of a preview over the committed cells.
pub open spec fn overlay_seq(g: GridV, pairs: Seq<(Coord, RenderCell)>) -> GridV
    decreases pairs.len(),
{
    if pairs.len() == 0 {
        g
    } else {
        overlay_seq(g, pairs.drop_last()).put(pairs.last().0, pairs.last().1)
    }
}

/// How many times `c` occurs in `coords`.
pub open spec fn coord_count(coords: Seq<Coord>, c: Coord) -> nat
    decreases coords.len(),
{
    if coords.len() == 0 {
        0
    } else {
        coord_count(coords.drop_last(), c) + if coords.last() == c {
            1nat
        } else {
            0nat
        }
    }
}

/// The total visit count recorded for `c` across the entries.
pub open spec fn entry_count(entries: Seq<(Coord, u32)>, c: Coord) -> nat
    decreases entries.len(),
{
    if entries.len() == 0 {
        0
    } else {
        entry_count(entries.drop_last(), c) + if entries.last().0 == c {
            entries.last().1 as nat
        } else {
            0nat
        }
    }
}

/// A point write read cell by cell: dimensions are kept, the written
/// coordinate (in bounds) holds the composed cell, every other index is
/// unchanged.
pub proof fn lemma_set_pointwise(g: GridV, c: Coord, cell: RenderCell)
    requires
        g.wf(),
    ensures
        g.set(c, cell).wf(),
        g.set(c, cell).width == g.width,
        g.set(c, cell).height == g.height,
        g.in_bounds(c) ==> g.set(c, cell).at(c) == compose_cell(g.at(c), cell),
        forall|d: Coord|
            g.in_bounds(d) && d != c ==> #[trigger] g.set(c, cell).at(d) == g.at(d),
{
    if g.in_bounds(c) {
        lemma_idx_bounds(g, c);
        assert forall|d: Coord| g.in_bounds(d) && d != c implies #[trigger] g.set(c, cell).at(d)
            == g.at(d) by {
            lemma_idx_bounds(g, d);
            if g.idx(d) == g.idx(c) {
                lemma_idx_injective(g, d, c);
            }
        }
    }
}

/// A point clear read cell by cell.
pub proof fn lemma_clear_pointwise(g: GridV, c: Coord)
    requires
        g.wf(),
    ensures
        g.clear(c).wf(),
        g.clear(c).width == g.width,
        g.clear(c).height == g.height,
        g.in_bounds(c) ==> g.clear(c).at(c) == RenderCell::blank_spec(),
        forall|d: Coord| g.in_bounds(d) && d != c ==> #[trigger] g.clear(c).at(d) == g.at(d),
{
    if g.in_bounds(c) {
        lemma_idx_bounds(g, c);
        assert forall|d: Coord| g.in_bounds(d) && d != c implies #[trigger] g.clear(c).at(d)
            == g.at(d) by {
            lemma_idx_bounds(g, d);
            if g.idx(d) == g.idx(c) {
                lemma_idx_injective(g, d, c);
            }
        }
    }
}

/// A sequence of point writes read cell by cell: each in-bounds coordinate is
/// composed over once per occurrence in the sequence.
pub proof fn lemma_paint_seq_pointwise(g: GridV, coords: Seq<Coord>, cell: RenderCell)
    requires
        g.wf(),
    ensures
        paint_seq(g, coords, cell).wf(),
        paint_seq(g, coords, cell).width == g.width,
        paint_seq(g, coords, cell).height == g.height,
        forall|c: Coord|
            g.in_bounds(c) ==> #[trigger] paint_seq(g, coords, cell).at(c) == compose_n(
                g.at(c),
                cell,
                coord_count(coords, c),
            ),
    decreases coords.len(),
{
    if coords.len() > 0 {
        let prefix = coords.drop_last();
        let last = coords.last();
        let p = paint_seq(g, prefix, cell);
        lemma_paint_seq_pointwise(g, prefix, cell);
        lemma_set_pointwise(p, last, cell);
        assert forall|c: Coord| g.in_bounds(c) implies #[trigger] paint_seq(g, coords, cell).at(c)
            == compose_n(g.at(c), cell, coord_count(coords, c)) by {
            if c == last {
                assert(p.set(last, cell).at(c) == compose_cell(p.at(c), cell));
                assert(compose_cell(compose_n(g.at(c), cell, coord_count(prefix, c)), cell)
                    == compose_n(g.at(c), cell, coord_count(prefix, c) + 1));
            }
        }
    }
}

/// Painting one coordinate `n` times read cell by cell.
pub proof fn lemma_paint_n_pointwise(g: GridV, c: Coord, cell: RenderCell, n: nat)
    requires
        g.wf(),
    ensures
        paint_n(g, c, cell, n).wf(),
        paint_n(g, c, cell, n).width == g.width,
        paint_n(g, c, cell, n).height == g.height,
        g.in_bounds(c) ==> paint_n(g, c, cell, n).at(c) == compose_n(g.at(c), cell, n),
        forall|d: Coord| g.in_bounds(d) && d != c ==> #[trigger] paint_n(g, c, cell, n).at(d)
            == g.at(d),
    decreases n,
{
    if n > 0 {
        lemma_paint_n_pointwise(g, c, cell, (n - 1) as nat);
        lemma_set_pointwise(paint_n(g, c, cell, (n - 1) as nat), c, cell);
    }
}

/// A pencil commit read cell by cell: each in-bounds coordinate is composed
/// over once per recorded visit.
pub proof fn lemma_pencil_paint_pointwise(g: GridV, entries: Seq<(Coord, u32)>, cell: RenderCell)
    requires
        g.wf(),
    ensures
        pencil_paint(g, entries, cell).wf(),
        pencil_paint(g, entries, cell).width == g.width,
        pencil_paint(g, entries, cell).height == g.height,
        forall|c: Coord|
            g.in_bounds(c) ==> #[trigger] pencil_paint(g, entries, cell).at(c) == compose_n(
                g.at(c),
                cell,
                entry_count(entries, c),
            ),
    decreases entries.len(),
{
    if entries.len() > 0 {
        let prefix = entries.drop_last();
        let last = entries.last();
        let p = pencil_paint(g, prefix, cell);
        lemma_pencil_paint_pointwise(g, prefix, cell);
        lemma_paint_n_pointwise(p, last.0, cell, last.1 as nat);
        assert forall|c: Coord| g.in_bounds(c) implies #[trigger] pencil_paint(
            g,
            entries,
            cell,
        ).at(c) == compose_n(g.at(c), cell, entry_count(entries, c)) by {
            if c == last.0 {
                lemma_compose_n_add(g.at(c), cell, entry_count(prefix, c), last.1 as nat);
            }
        }
    }
}

/// A sequence of point clears read cell by cell: an in-bounds coordinate is
/// blank if it occurs in the sequence and untouched otherwise.
pub proof fn lemma_clear_seq_pointwise(g: GridV, coords: Seq<Coord>)
    requires
        g.wf(),
    ensures
        clear_seq(g, coords).wf(),
        clear_seq(g, coords).width == g.width,
        clear_seq(g, coords).height == g.height,
        forall|c: Coord|
            g.in_bounds(c) ==> #[trigger] clear_seq(g, coords).at(c) == if coords.contains(c) {
                RenderCell::blank_spec()
            } else {
                g.at(c)
            },
    decreases coords.len(),
{
    if coords.len() > 0 {
        let prefix = coords.drop_last();
        let last = coords.last();
        lemma_clear_seq_pointwise(g, prefix);
        lemma_clear_pointwise(clear_seq(g, prefix), last);
        assert forall|c: Coord| g.in_bounds(c) implies #[trigger] clear_seq(g, coords).at(c) == (
        if coords.contains(c) {
            RenderCell::blank_spec()
        } else {
            g.at(c)
        }) by {
            assert(coords.contains(c) <==> prefix.contains(c) || last == c) by {
                if coords.contains(c) {
                    let j = choose|j: int| 0 <= j < coords.len() && coords[j] == c;
                    if j < coords.len() - 1 {
                        assert(prefix[j] == c);
                    }
                } else {
                    if prefix.contains(c) {
                        let j = choose|j: int| 0 <= j < prefix.len() && prefix[j] == c;
                        assert(coords[j] == c);
                    }
                    assert(coords[coords.len() - 1] == last);
                }
            }
        }
    }
}

/// In a duplicate-free sequence every coordinate occurs at most once.
pub proof fn lemma_coord_count_distinct(coords: Seq<Coord>, c: Coord)
    requires
        coords.no_duplicates(),
    ensures
        coord_count(coords, c) == if coords.contains(c) {
            1nat
        } else {
            0nat
        },
    decreases coords.len(),
{
    if coords.len() > 0 {
        let prefix = coords.drop_last();
        let last = coords.last();
        assert(prefix.no_duplicates()) by {
            assert(forall|i: int| 0 <= i < prefix.len() ==> prefix[i] == #[trigger] coords[i]);
        }
        lemma_coord_count_distinct(prefix, c);
        if last == c {
            assert(!prefix.contains(c)) by {
                if prefix.contains(c) {
                    let j = choose|j: int| 0 <= j < prefix.len() && prefix[j] == c;
                    assert(coords[j] == coords[coords.len() - 1]);
                }
            }
            assert(coords[coords.len() - 1] == c);
        } else {
            assert(coords.contains(c) <==> prefix.contains(c)) by {
                if coords.contains(c) {
                    let j = choose|j: int| 0 <= j < coords.len() && coords[j] == c;
                    assert(j < coords.len() - 1);
                    assert(prefix[j] == c);
                } else if prefix.contains(c) {
                    let j = choose|j: int| 0 <= j < prefix.len() && prefix[j] == c;
                    assert(coords[j] == c);
                }
            }
        }
    }
}

} // verus!
