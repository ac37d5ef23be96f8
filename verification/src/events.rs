//! Drawing events: one per tool, each capturing the minimal geometry of one
//! press–drag–release interaction, able to preview itself against a raster
//! and to commit itself deterministically.

use vstd::prelude::*;
use crate::cell::{compose_cell, compose_n, RenderCell, Style};
use crate::coords::{Coord, COORD_LIMIT};
use crate::line::{line_coords, line_seq};
use crate::paint::{clear_seq, coord_count, entry_count, lemma_clear_seq_pointwise, overlay_seq,
    lemma_coord_count_distinct, lemma_paint_seq_pointwise, lemma_pencil_paint_pointwise, paint_n,
    paint_seq, pencil_paint};
use crate::colour::Rgba32;
use crate::flood::{lemma_region_cells, region};
use crate::raster::{lemma_idx_coord_of, GridV, Raster};

verus! {

/// `m + k` capped at the largest visit count a cell can record.
pub open spec fn sat_add_u32(m: nat, k: nat) -> nat {
    if m + k <= u32::MAX {
        (m + k) as nat
    } else {
        u32::MAX as nat
    }
}

/// The preview of a pencil stroke against a grid: each recorded in-bounds
/// coordinate paired with the grid's cell composed over once per recorded
/// visit, in recording order; out-of-bounds coordinates are skipped.
pub open spec fn pencil_preview(
    entries: Seq<(Coord, u32)>,
    g: GridV,
    cell: RenderCell,
) -> Seq<(Coord, RenderCell)>
    decreases entries.len(),
{
    if entries.len() == 0 {
        Seq::empty()
    } else {
        let rest = pencil_preview(entries.drop_last(), g, cell);
        let e = entries.last();
        if g.in_bounds(e.0) {
            rest.push((e.0, compose_n(g.at(e.0), cell, e.1 as nat)))
        } else {
            rest
        }
    }
}

/// A freehand stroke: every visited coordinate with its visit count, plus the
/// last coordinate seen, from which further motion is interpolated.
pub struct PencilEvent {
    coords: Vec<(Coord, u32)>,
    last_coord: Coord,
}

impl PencilEvent {
    /// The recorded (coordinate, visit count) entries, in recording order.
    pub closed spec fn entries(self) -> Seq<(Coord, u32)> {
        self.coords@
    }

    /// The last coordinate the pointer was seen at.
    pub closed spec fn last_seen(self) -> Coord {
        self.last_coord
    }

    /// The recorded visit count of `c` (zero if never visited).
    pub open spec fn count(self, c: Coord) -> nat {
        entry_count(self.entries(), c)
    }

    /// Each coordinate is recorded at most once, never with a zero count, and
    /// the last-seen coordinate is within the line-safe range.
    pub open spec fn wf(self) -> bool {
        &&& self.last_seen().bounded()
        &&& forall|j: int| 0 <= j < self.entries().len() ==> (#[trigger] self.entries()[j]).1 >= 1
        &&& forall|i: int, j: int|
            0 <= i < j < self.entries().len() ==> (#[trigger] self.entries()[i]).0 != (
            #[trigger] self.entries()[j]).0
    }

    /// Begin a stroke: the pressed coordinate is visited once.
    pub fn mouse_press(coord: Coord) -> (e: Self)
        requires
            coord.bounded(),
        ensures
            e.wf(),
            e.entries() =~= seq![(coord, 1u32)],
            e.last_seen() == coord,
            forall|c: Coord| e.count(c) == if c == coord {
                1nat
            } else {
                0nat
            },
    {
        let mut coords: Vec<(Coord, u32)> = Vec::new();
        coords.push((coord, 1));
        let e = PencilEvent { coords, last_coord: coord };
        proof {
            assert(e.entries() =~= seq![(coord, 1u32)]);
            assert forall|c: Coord| e.count(c) == (if c == coord {
                1nat
            } else {
                0nat
            }) by {
                let s = e.entries();
                assert(s.len() == 1);
                assert(s.drop_last() =~= Seq::<(Coord, u32)>::empty());
                assert(entry_count(s.drop_last(), c) == 0);
                assert(s.last() == (coord, 1u32));
                assert(entry_count(s, c) == entry_count(s.drop_last(), c) + if s.last().0 == c {
                    s.last().1 as nat
                } else {
                    0nat
                });
            }
        }
        e
    }

    /// Record one more visit of `c`, saturating at the largest count.
    fn bump(&mut self, c: Coord)
        requires
            old(self).wf(),
        ensures
            final(self).wf(),
            final(self).last_seen() == old(self).last_seen(),
            forall|x: Coord| final(self).count(x) == if x == c {
                sat_add_u32(old(self).count(x), 1)
            } else {
                old(self).count(x)
            },
    {
        let ghost s0 = self.coords@;
        proof {
            assert(old(self).entries() == s0);
            assert forall|p: int, q: int| 0 <= p < q < s0.len() implies (#[trigger] s0[p]).0 != (
            #[trigger] s0[q]).0 by {
                assert((old(self).entries()[p]).0 != (old(self).entries()[q]).0);
            }
            assert forall|p: int| 0 <= p < s0.len() implies (#[trigger] s0[p]).1 >= 1 by {
                assert((old(self).entries()[p]).1 >= 1);
            }
        }
        let mut j: usize = 0;
        while j < self.coords.len()
            invariant
                j <= self.coords@.len(),
                self.coords@ == s0,
                self.last_coord == old(self).last_coord,
                forall|k: int| 0 <= k < j ==> (#[trigger] s0[k]).0 != c,
                forall|p: int, q: int|
                    0 <= p < q < s0.len() ==> (#[trigger] s0[p]).0 != (#[trigger] s0[q]).0,
                forall|p: int| 0 <= p < s0.len() ==> (#[trigger] s0[p]).1 >= 1,
                old(self).wf(),
                old(self).entries() == s0,
            decreases self.coords@.len() - j,
        {
            let (ec, ev) = self.coords[j];
            if ec == c {
                let bumped: u32 = if ev < u32::MAX {
                    ev + 1
                } else {
                    ev
                };
                self.coords.set(j, (c, bumped));
                proof {
                    lemma_entry_count_key_unique(s0, j as int);
                    assert(entry_count(s0, c) == ev as nat);
                    assert forall|x: Coord| entry_count(self.coords@, x) == (if x == c {
                        sat_add_u32(entry_count(s0, x), 1)
                    } else {
                        entry_count(s0, x)
                    }) by {
                        lemma_entry_count_update_other(s0, j as int, (c, bumped), x);
                    }
                    assert forall|p: int, q: int|
                        0 <= p < q < self.coords@.len() implies (#[trigger] self.coords@[p]).0
                        != (#[trigger] self.coords@[q]).0 by {
                        assert(self.coords@[p].0 == s0[p].0 && self.coords@[q].0 == s0[q].0);
                    }
                    assert(final(self).entries() == self.coords@);
                    assert forall|p: int| 0 <= p < self.coords@.len() implies (
                    #[trigger] self.coords@[p]).1 >= 1 by {
                        if p != j {
                            assert(self.coords@[p] == s0[p]);
                        }
                    }
                }
                return ;
            }
            j = j + 1;
        }
        self.coords.push((c, 1));
        proof {
            assert(self.coords@.drop_last() =~= s0);
            assert(self.coords@.last() == (c, 1u32));
            assert(entry_count(self.coords@, c) == entry_count(self.coords@.drop_last(), c)
                + 1nat);
            assert(entry_count(s0, c) == 0) by {
                lemma_entry_count_absent(s0, c);
            }
            assert forall|x: Coord| entry_count(self.coords@, x) == (if x == c {
                sat_add_u32(entry_count(s0, x), 1)
            } else {
                entry_count(s0, x)
            }) by {
                assert(entry_count(self.coords@, x) == entry_count(self.coords@.drop_last(), x)
                    + if self.coords@.last().0 == x {
                    self.coords@.last().1 as nat
                } else {
                    0nat
                });
            }
            assert forall|p: int, q: int|
                0 <= p < q < self.coords@.len() implies (#[trigger] self.coords@[p]).0 != (
            #[trigger] self.coords@[q]).0 by {
                if q == self.coords@.len() - 1 {
                    assert(self.coords@[p] == s0[p]);
                    assert(s0[p].0 != c);
                } else {
                    assert(self.coords@[p] == s0[p] && self.coords@[q] == s0[q]);
                }
            }
            assert forall|p: int| 0 <= p < self.coords@.len() implies (
            #[trigger] self.coords@[p]).1 >= 1 by {
                if p < self.coords@.len() - 1 {
                    assert(self.coords@[p] == s0[p]);
                }
            }
            assert(final(self).entries() == self.coords@);
        }
    }

    /// Drag to `coord`: rasterize the straight line from the last-seen
    /// coordinate (exclusive) to `coord` (inclusive) and record one more
    /// visit of every coordinate on it; a drag that stays on the last-seen
    /// coordinate records nothing.
    pub fn mouse_move(&mut self, coord: Coord)
        requires
            old(self).wf(),
            coord.bounded(),
        ensures
            final(self).wf(),
            coord == old(self).last_seen() ==> *final(self) == *old(self),
            coord != old(self).last_seen() ==> final(self).last_seen() == coord && forall|c: Coord|
                final(self).count(c) == sat_add_u32(
                    old(self).count(c),
                    coord_count(
                        line_seq(old(self).last_seen(), coord).drop_first(),
                        c,
                    ),
                ),
    {
        if coord != self.last_coord {
            let line = line_coords(self.last_coord, coord);
            let ghost lseq = line@;
            let ghost e0 = *self;
            let mut i: usize = 1;
            proof {
                assert(lseq.subrange(1, 1) =~= Seq::<Coord>::empty());
                assert forall|c: Coord| e0.count(c) == sat_add_u32(
                    e0.count(c),
                    coord_count(lseq.subrange(1, 1), c),
                ) by {
                    lemma_entry_count_bound(e0.entries(), c);
                }
            }
            while i < line.len()
                invariant
                    1 <= i <= lseq.len(),
                    line@ == lseq,
                    self.wf(),
                    self.last_seen() == e0.last_seen(),
                    e0.wf(),
                    forall|c: Coord|
                        self.count(c) == sat_add_u32(
                            e0.count(c),
                            coord_count(lseq.subrange(1, i as int), c),
                        ),
                decreases lseq.len() - i,
            {
                let ghost cnt_before = |c: Coord| self.count(c);
                self.bump(line[i]);
                proof {
                    let d = lseq[i as int];
                    assert(lseq.subrange(1, i + 1).drop_last() =~= lseq.subrange(1, i as int));
                    assert(lseq.subrange(1, i + 1).last() == d);
                    assert forall|c: Coord|
                        self.count(c) == sat_add_u32(
                            e0.count(c),
                            coord_count(lseq.subrange(1, i + 1), c),
                        ) by {
                        lemma_entry_count_bound(e0.entries(), c);
                        assert(coord_count(lseq.subrange(1, i + 1), c) == coord_count(
                            lseq.subrange(1, i as int),
                            c,
                        ) + if d == c {
                            1nat
                        } else {
                            0nat
                        });
                    }
                }
                i = i + 1;
            }
            proof {
                assert(lseq.subrange(1, lseq.len() as int) =~= lseq.drop_first());
            }
            let ghost e1 = *self;
            self.last_coord = coord;
            proof {
                assert(self.entries() == e1.entries());
                assert(self.last_seen() == coord);
                assert forall|j: int| 0 <= j < self.entries().len() implies (
                #[trigger] self.entries()[j]).1 >= 1 by {
                    assert((e1.entries()[j]).1 >= 1);
                }
                assert forall|p: int, q: int|
                    0 <= p < q < self.entries().len() implies (#[trigger] self.entries()[p]).0
                    != (#[trigger] self.entries()[q]).0 by {
                    assert((e1.entries()[p]).0 != (e1.entries()[q]).0);
                }
                assert forall|c: Coord|
                    self.count(c) == sat_add_u32(
                        e0.count(c),
                        coord_count(line_seq(e0.last_seen(), coord).drop_first(), c),
                    ) by {
                    assert(e1.count(c) == sat_add_u32(
                        e0.count(c),
                        coord_count(lseq.subrange(1, lseq.len() as int), c),
                    ));
                }
            }
        }
    }

    /// Apply `render_cell` to the raster once per recorded visit of every
    /// recorded coordinate: repeated self-composition deliberately builds up
    /// "ink" where the stroke passed more than once.
    pub fn commit(&self, render_cell: RenderCell, raster: &mut Raster)
        requires
            old(raster).wf(),
        ensures
            final(raster).wf(),
            final(raster)@ == pencil_paint(old(raster)@, self.entries(), render_cell),
    {
        let ghost g0 = raster@;
        let mut j: usize = 0;
        while j < self.coords.len()
            invariant
                j <= self.coords@.len(),
                raster.wf(),
                raster@ == pencil_paint(g0, self.coords@.take(j as int), render_cell),
            decreases self.coords@.len() - j,
        {
            let (c, n) = self.coords[j];
            let ghost gj = raster@;
            let mut k: u32 = 0;
            while k < n
                invariant
                    k <= n,
                    raster.wf(),
                    raster@ == paint_n(gj, c, render_cell, k as nat),
                decreases n - k,
            {
                raster.set_coord(c, render_cell);
                k = k + 1;
            }
            proof {
                assert(self.coords@.take(j + 1).drop_last() =~= self.coords@.take(j as int));
                assert(self.coords@.take(j + 1).last() == self.coords@[j as int]);
            }
            j = j + 1;
        }
        proof {
            assert(self.coords@.take(self.coords@.len() as int) =~= self.coords@);
            assert(self.entries() == self.coords@);
        }
    }

    /// The stroke's visual effect, without touching the raster: each
    /// recorded in-bounds coordinate with the cell it would show after the
    /// recorded number of passes.
    pub fn preview(&self, raster: &Raster, render_cell: RenderCell) -> (r: Vec<(Coord, RenderCell)>)
        requires
            raster.wf(),
        ensures
            r@ == pencil_preview(self.entries(), raster@, render_cell),
    {
        let mut r: Vec<(Coord, RenderCell)> = Vec::new();
        let mut j: usize = 0;
        while j < self.coords.len()
            invariant
                j <= self.coords@.len(),
                raster.wf(),
                r@ == pencil_preview(self.coords@.take(j as int), raster@, render_cell),
            decreases self.coords@.len() - j,
        {
            let (c, n) = self.coords[j];
            match raster.get(c) {
                Some(cell0) => {
                    let mut cur = cell0;
                    let mut k: u32 = 0;
                    while k < n
                        invariant
                            k <= n,
                            raster.wf(),
                            raster@.in_bounds(c),
                            cur == compose_n(raster@.at(c), render_cell, k as nat),
                        decreases n - k,
                    {
                        cur = Raster::stack_render_cells(cur, render_cell);
                        k = k + 1;
                    }
                    r.push((c, cur));
                },
                None => {},
            }
            proof {
                assert(self.coords@.take(j + 1).drop_last() =~= self.coords@.take(j as int));
                assert(self.coords@.take(j + 1).last() == self.coords@[j as int]);
            }
            j = j + 1;
        }
        proof {
            assert(self.coords@.take(self.coords@.len() as int) =~= self.coords@);
            assert(self.entries() == self.coords@);
        }
        r
    }
}

/// Replacing the entry at `j` exchanges its contribution to every count.
proof fn lemma_entry_count_update(s: Seq<(Coord, u32)>, j: int, e: (Coord, u32))
    requires
        0 <= j < s.len(),
    ensures
        forall|x: Coord|
            #[trigger] entry_count(s.update(j, e), x) + (if s[j].0 == x {
                s[j].1 as nat
            } else {
                0nat
            }) == entry_count(s, x) + (if e.0 == x {
                e.1 as nat
            } else {
                0nat
            }),
    decreases s.len(),
{
    let t = s.update(j, e);
    assert forall|x: Coord|
        entry_count(t, x) + (if s[j].0 == x {
            s[j].1 as nat
        } else {
            0nat
        }) == entry_count(s, x) + (if e.0 == x {
            e.1 as nat
        } else {
            0nat
        }) by {
        assert(entry_count(t, x) == entry_count(t.drop_last(), x) + if t.last().0 == x {
            t.last().1 as nat
        } else {
            0nat
        });
        assert(entry_count(s, x) == entry_count(s.drop_last(), x) + if s.last().0 == x {
            s.last().1 as nat
        } else {
            0nat
        });
        if j == s.len() - 1 {
            assert(t.drop_last() =~= s.drop_last());
            assert(t.last() == e);
        } else {
            let u = s.drop_last();
            assert(t.drop_last() =~= u.update(j, e));
            lemma_entry_count_update(u, j, e);
            assert(entry_count(u.update(j, e), x) + (if u[j].0 == x {
                u[j].1 as nat
            } else {
                0nat
            }) == entry_count(u, x) + (if e.0 == x {
                e.1 as nat
            } else {
                0nat
            }));
            assert(u[j] == s[j]);
            assert(t.last() == s.last());
        }
    }
}

/// With pairwise-distinct keys, the whole count of `s[j].0` is `s[j].1`.
proof fn lemma_entry_count_key_unique(s: Seq<(Coord, u32)>, j: int)
    requires
        0 <= j < s.len(),
        forall|p: int, q: int|
            0 <= p < q < s.len() ==> (#[trigger] s[p]).0 != (#[trigger] s[q]).0,
    ensures
        entry_count(s, s[j].0) == s[j].1 as nat,
    decreases s.len(),
{
    if j == s.len() - 1 {
        lemma_entry_count_absent(s.drop_last(), s[j].0);
    } else {
        let t = s.drop_last();
        assert(forall|k: int| 0 <= k < t.len() ==> t[k] == #[trigger] s[k]);
        lemma_entry_count_key_unique(t, j);
        assert(s.last().0 != s[j].0);
    }
}

/// A key that appears in no entry has count zero.
proof fn lemma_entry_count_absent(s: Seq<(Coord, u32)>, c: Coord)
    requires
        forall|k: int| 0 <= k < s.len() ==> (#[trigger] s[k]).0 != c,
    ensures
        entry_count(s, c) == 0,
    decreases s.len(),
{
    if s.len() > 0 {
        let t = s.drop_last();
        assert(forall|k: int| 0 <= k < t.len() ==> t[k] == #[trigger] s[k]);
        lemma_entry_count_absent(t, c);
        assert(s[s.len() - 1].0 != c);
    }
}

/// Replacing the entry at `j` with an entry of the same key leaves every
/// other key's count unchanged, and moves that key's count by the
/// difference.
proof fn lemma_entry_count_update_other(s: Seq<(Coord, u32)>, j: int, e: (Coord, u32), x: Coord)
    requires
        0 <= j < s.len(),
        s[j].0 == e.0,
    ensures
        e.0 != x ==> entry_count(s.update(j, e), x) == entry_count(s, x),
        e.0 == x ==> entry_count(s.update(j, e), x) + s[j].1 as nat == entry_count(s, x)
            + e.1 as nat,
{
    lemma_entry_count_update(s, j, e);
    assert(entry_count(s.update(j, e), x) + (if s[j].0 == x {
        s[j].1 as nat
    } else {
        0nat
    }) == entry_count(s, x) + (if e.0 == x {
        e.1 as nat
    } else {
        0nat
    }));
}



/// With pairwise-distinct keys no recorded count exceeds `u32::MAX`.
proof fn lemma_entry_count_bound(s: Seq<(Coord, u32)>, c: Coord)
    requires
        forall|p: int, q: int|
            0 <= p < q < s.len() ==> (#[trigger] s[p]).0 != (#[trigger] s[q]).0,
    ensures
        entry_count(s, c) <= u32::MAX,
{
    if exists|j: int| 0 <= j < s.len() && (#[trigger] s[j]).0 == c {
        let j = choose|j: int| 0 <= j < s.len() && (#[trigger] s[j]).0 == c;
        lemma_entry_count_key_unique(s, j);
    } else {
        lemma_entry_count_absent(s, c);
    }
}

/// Compose `cell` over the raster at each coordinate of `coords`, in order.
pub(crate) fn paint_coords_exec(raster: &mut Raster, coords: &Vec<Coord>, cell: RenderCell)
    requires
        old(raster).wf(),
    ensures
        final(raster).wf(),
        final(raster)@ == paint_seq(old(raster)@, coords@, cell),
{
    let ghost g0 = raster@;
    let mut j: usize = 0;
    while j < coords.len()
        invariant
            j <= coords@.len(),
            raster.wf(),
            raster@ == paint_seq(g0, coords@.take(j as int), cell),
        decreases coords@.len() - j,
    {
        raster.set_coord(coords[j], cell);
        proof {
            assert(coords@.take(j + 1).drop_last() =~= coords@.take(j as int));
            assert(coords@.take(j + 1).last() == coords@[j as int]);
        }
        j = j + 1;
    }
    proof {
        assert(coords@.take(coords@.len() as int) =~= coords@);
    }
}

/// Clear the raster at each coordinate of `coords`, in order.
pub(crate) fn clear_coords_exec(raster: &mut Raster, coords: &Vec<Coord>)
    requires
        old(raster).wf(),
    ensures
        final(raster).wf(),
        final(raster)@ == clear_seq(old(raster)@, coords@),
{
    let ghost g0 = raster@;
    let mut j: usize = 0;
    while j < coords.len()
        invariant
            j <= coords@.len(),
            raster.wf(),
            raster@ == clear_seq(g0, coords@.take(j as int)),
        decreases coords@.len() - j,
    {
        raster.clear_coord(coords[j]);
        proof {
            assert(coords@.take(j + 1).drop_last() =~= coords@.take(j as int));
            assert(coords@.take(j + 1).last() == coords@[j as int]);
        }
        j = j + 1;
    }
    proof {
        assert(coords@.take(coords@.len() as int) =~= coords@);
    }
}


/// The preview of painting `coords` once each against `g`: in-bounds
/// coordinates paired with the grid's cell composed over once, in order;
/// out-of-bounds coordinates are skipped.
pub open spec fn paint_preview(g: GridV, coords: Seq<Coord>, cell: RenderCell) -> Seq<
    (Coord, RenderCell),
>
    decreases coords.len(),
{
    if coords.len() == 0 {
        Seq::empty()
    } else {
        let rest = paint_preview(g, coords.drop_last(), cell);
        let c = coords.last();
        if g.in_bounds(c) {
            rest.push((c, compose_cell(g.at(c), cell)))
        } else {
            rest
        }
    }
}

/// A flood fill seeded at `seed`: every cell of the seed's region is composed
/// over once, every other cell is unchanged, the dimensions are kept.
pub open spec fn fill_spec(g: GridV, seed: Coord, cell: RenderCell) -> GridV {
    GridV {
        width: g.width,
        height: g.height,
        cells: Seq::new(
            g.cells.len(),
            |i: int|
                if region(g, seed).contains(g.coord_of(i)) {
                    compose_cell(g.cells[i], cell)
                } else {
                    g.cells[i]
                },
        ),
    }
}

/// Painting each member of the seed's region exactly once, in any order, is
/// the flood fill.
proof fn lemma_fill_commit(g: GridV, seed: Coord, coords: Seq<Coord>, cell: RenderCell)
    requires
        g.wf(),
        g.in_bounds(seed),
        coords.no_duplicates(),
        coords.to_set() == region(g, seed),
    ensures
        paint_seq(g, coords, cell) =~= fill_spec(g, seed, cell),
{
    lemma_paint_seq_pointwise(g, coords, cell);
    let p = paint_seq(g, coords, cell);
    let f = fill_spec(g, seed, cell);
    assert(p.cells.len() == f.cells.len());
    assert forall|i: int| 0 <= i < p.cells.len() implies p.cells[i] == f.cells[i] by {
        lemma_idx_coord_of(g, i);
        let c = g.coord_of(i);
        lemma_coord_count_distinct(coords, c);
        assert(coords.contains(c) == region(g, seed).contains(c)) by {
            assert(coords.to_set().contains(c) == coords.contains(c));
        }
        assert(p.at(c) == p.cells[i] && g.at(c) == g.cells[i]);
        if region(g, seed).contains(c) {
            assert(coord_count(coords, c) == 1);
            assert(compose_n(g.at(c), cell, 0) == g.at(c));
            assert(compose_n(g.at(c), cell, 1) == compose_cell(g.at(c), cell));
        } else {
            assert(coord_count(coords, c) == 0);
        }
    }
    assert(p.cells =~= f.cells);
}

/// The single seed coordinate of a fill stroke: dragging moves the seed, and
/// the filled region is recomputed from the raster only at commit time.
pub struct FillEvent {
    start: Coord,
}

impl FillEvent {
    /// The current seed coordinate.
    pub closed spec fn seed(self) -> Coord {
        self.start
    }

    /// Begin a fill stroke at `coord`.
    pub fn mouse_press(coord: Coord) -> (e: Self)
        ensures
            e.seed() == coord,
    {
        FillEvent { start: coord }
    }

    /// Drag: the seed follows the pointer; nothing accumulates.
    pub fn mouse_move(&mut self, coord: Coord)
        ensures
            final(self).seed() == coord,
    {
        self.start = coord;
    }

    /// Flood-fill the raster from the seed, as it stands now, and compose
    /// `render_cell` once over every coordinate of the region. The seed must
    /// be in bounds; the caller validates it.
    pub fn commit(&self, render_cell: RenderCell, raster: &mut Raster)
        requires
            old(raster).wf(),
            old(raster)@.in_bounds(self.seed()),
        ensures
            final(raster).wf(),
            final(raster)@ == fill_spec(old(raster)@, self.seed(), render_cell),
    {
        let ghost g0 = raster@;
        let coords = raster.flood_fill(self.start);
        paint_coords_exec(raster, &coords, render_cell);
        proof {
            lemma_fill_commit(g0, self.seed(), coords@, render_cell);
        }
    }

    /// The fill's visual effect without touching the raster: every coordinate
    /// of the seed's region, each composed once with `render_cell`.
    pub fn preview(&self, raster: &Raster, render_cell: RenderCell) -> (r: Vec<(Coord, RenderCell)>)
        requires
            raster.wf(),
            raster@.in_bounds(self.seed()),
        ensures
            fill_previewed(raster@, self.seed(), render_cell, r@),
    {
        let ghost g = raster@;
        let coords = raster.flood_fill(self.start);
        let mut r: Vec<(Coord, RenderCell)> = Vec::new();
        let mut j: usize = 0;
        while j < coords.len()
            invariant
                j <= coords@.len(),
                raster.wf(),
                g == raster@,
                g.in_bounds(self.seed()),
                coords@.to_set() == region(g, self.seed()),
                r@.len() == j,
                forall|k: int|
                    0 <= k < j ==> #[trigger] r@[k] == (
                        coords@[k],
                        compose_cell(g.at(coords@[k]), render_cell),
                    ),
            decreases coords@.len() - j,
        {
            let c = coords[j];
            proof {
                assert(coords@.to_set().contains(c));
                lemma_region_cells(g, self.seed(), c);
            }
            let cur = raster.get(c).unwrap();
            r.push((c, Raster::stack_render_cells(cur, render_cell)));
            j = j + 1;
        }
        proof {
            assert forall|k: int| 0 <= k < r@.len() implies region(g, self.seed()).contains(
                (#[trigger] r@[k]).0,
            ) && r@[k].1 == compose_cell(g.at(r@[k].0), render_cell) by {
                assert(coords@.to_set().contains(coords@[k]));
            }
            assert forall|c: Coord| region(g, self.seed()).contains(c) implies exists|k: int|
                0 <= k < r@.len() && (#[trigger] r@[k]).0 == c by {
                assert(coords@.to_set().contains(c));
                let k = choose|k: int| 0 <= k < coords@.len() && coords@[k] == c;
                assert(r@[k].0 == c);
            }
        }
        r
    }
}

/// `out` is a faithful preview of a fill seeded at `seed` against `g`: every
/// reported coordinate lies in the seed's region and carries the cell it
/// would show, and every coordinate of the region is reported.
pub open spec fn fill_previewed(
    g: GridV,
    seed: Coord,
    cell: RenderCell,
    out: Seq<(Coord, RenderCell)>,
) -> bool {
    &&& forall|k: int|
        0 <= k < out.len() ==> region(g, seed).contains((#[trigger] out[k]).0) && out[k].1
            == compose_cell(g.at(out[k].0), cell)
    &&& forall|c: Coord|
        region(g, seed).contains(c) ==> exists|k: int| 0 <= k < out.len() && (#[trigger] out[k]).0
            == c
}

/// A straight stroke: only the endpoints matter, and dragging moves the end.
pub struct LineEvent {
    start: Coord,
    end: Coord,
}

impl LineEvent {
    pub closed spec fn start_coord(self) -> Coord {
        self.start
    }

    pub closed spec fn end_coord(self) -> Coord {
        self.end
    }

    /// Both endpoints within the line-safe range.
    pub open spec fn wf(self) -> bool {
        self.start_coord().bounded() && self.end_coord().bounded()
    }

    /// Begin a line stroke: both endpoints at the pressed coordinate.
    pub fn mouse_press(coord: Coord) -> (e: Self)
        requires
            coord.bounded(),
        ensures
            e.wf(),
            e.start_coord() == coord,
            e.end_coord() == coord,
    {
        LineEvent { start: coord, end: coord }
    }

    /// Drag: only the end moves.
    pub fn mouse_move(&mut self, coord: Coord)
        requires
            old(self).wf(),
            coord.bounded(),
        ensures
            final(self).wf(),
            final(self).start_coord() == old(self).start_coord(),
            final(self).end_coord() == coord,
    {
        self.end = coord;
    }

    /// Compose `render_cell` once over every coordinate of the rasterized
    /// line between the endpoints, both included.
    pub fn commit(&self, render_cell: RenderCell, raster: &mut Raster)
        requires
            old(raster).wf(),
            self.wf(),
        ensures
            final(raster).wf(),
            final(raster)@ == paint_seq(
                old(raster)@,
                line_seq(self.start_coord(), self.end_coord()),
                render_cell,
            ),
    {
        let coords = line_coords(self.start, self.end);
        paint_coords_exec(raster, &coords, render_cell);
    }

    /// The line's visual effect without touching the raster: every in-bounds
    /// coordinate of the rasterized line, composed once with `render_cell`.
    pub fn preview(&self, raster: &Raster, render_cell: RenderCell) -> (r: Vec<(Coord, RenderCell)>)
        requires
            raster.wf(),
            self.wf(),
        ensures
            r@ == paint_preview(
                raster@,
                line_seq(self.start_coord(), self.end_coord()),
                render_cell,
            ),
    {
        let coords = line_coords(self.start, self.end);
        preview_coords_exec(raster, &coords, render_cell)
    }
}

/// The preview pairs for painting `coords` once each, skipping out-of-bounds
/// coordinates.
fn preview_coords_exec(raster: &Raster, coords: &Vec<Coord>, cell: RenderCell) -> (r: Vec<
    (Coord, RenderCell),
>)
    requires
        raster.wf(),
    ensures
        r@ == paint_preview(raster@, coords@, cell),
{
    let mut r: Vec<(Coord, RenderCell)> = Vec::new();
    let mut j: usize = 0;
    while j < coords.len()
        invariant
            j <= coords@.len(),
            raster.wf(),
            r@ == paint_preview(raster@, coords@.take(j as int), cell),
        decreases coords@.len() - j,
    {
        let c = coords[j];
        match raster.get(c) {
            Some(cur) => {
                r.push((c, Raster::stack_render_cells(cur, cell)));
            },
            None => {},
        }
        proof {
            assert(coords@.take(j + 1).drop_last() =~= coords@.take(j as int));
            assert(coords@.take(j + 1).last() == coords@[j as int]);
        }
        j = j + 1;
    }
    proof {
        assert(coords@.take(coords@.len() as int) =~= coords@);
    }
    r
}

/// The opaque blank marker an erase stroke shows over the coordinates it
/// will wipe: a full block glyph in opaque black, independent of the current
/// paint style.
pub open spec fn eraser_marker() -> RenderCell {
    RenderCell {
        character: Some('\u{2588}'),
        style: Style {
            foreground: Some(Rgba32 { r: 0, g: 0, b: 0, a: 255 }),
            background: None,
            bold: None,
            underline: None,
        },
    }
}

/// An erase stroke: the set of visited coordinates, plus the last coordinate
/// seen, from which further motion is interpolated.
pub struct EraseEvent {
    coords: Vec<Coord>,
    last_coord: Coord,
}

impl EraseEvent {
    /// The visited coordinates in recording order (each at most once).
    pub closed spec fn coords_seq(self) -> Seq<Coord> {
        self.coords@
    }

    /// The last coordinate the pointer was seen at.
    pub closed spec fn last_seen(self) -> Coord {
        self.last_coord
    }

    /// Whether the stroke has visited `c`.
    pub open spec fn covers(self, c: Coord) -> bool {
        self.coords_seq().contains(c)
    }

    pub open spec fn wf(self) -> bool {
        self.last_seen().bounded() && self.coords_seq().no_duplicates()
    }

    /// Begin an erase stroke: the pressed coordinate is visited.
    pub fn mouse_press(coord: Coord) -> (e: Self)
        requires
            coord.bounded(),
        ensures
            e.wf(),
            e.coords_seq() =~= seq![coord],
            e.last_seen() == coord,
    {
        let mut coords: Vec<Coord> = Vec::new();
        coords.push(coord);
        EraseEvent { coords, last_coord: coord }
    }

    /// Record a visit of `c` if it is not yet recorded.
    fn insert_coord(&mut self, c: Coord)
        requires
            old(self).coords_seq().no_duplicates(),
        ensures
            final(self).coords_seq().no_duplicates(),
            final(self).last_seen() == old(self).last_seen(),
            forall|x: Coord|
                #![trigger final(self).covers(x)]
                #![trigger old(self).covers(x)]
                final(self).covers(x) <==> old(self).covers(x) || x == c,
    {
        let ghost s0 = self.coords@;
        let mut j: usize = 0;
        while j < self.coords.len()
            invariant
                j <= self.coords@.len(),
                self.coords@ == s0,
                s0.no_duplicates(),
                self.last_coord == old(self).last_coord,
                old(self).coords_seq() == s0,
                forall|k: int| 0 <= k < j ==> #[trigger] s0[k] != c,
            decreases self.coords@.len() - j,
        {
            if self.coords[j] == c {
                proof {
                    assert(self.coords_seq().contains(c)) by {
                        assert(self.coords@[j as int] == c);
                    }
                }
                return ;
            }
            j = j + 1;
        }
        self.coords.push(c);
        proof {
            assert(self.coords@.drop_last() =~= s0);
            assert(self.coords@.last() == c);
            assert forall|p: int, q: int|
                0 <= p < q < self.coords@.len() implies #[trigger] self.coords@[p] != (
            #[trigger] self.coords@[q]) by {
                if q == self.coords@.len() - 1 {
                    assert(self.coords@[p] == s0[p]);
                } else {
                    assert(self.coords@[p] == s0[p] && self.coords@[q] == s0[q]);
                }
            }
            assert forall|x: Coord| final(self).covers(x) <==> old(self).covers(x) || x == c by {
                if s0.contains(x) {
                    let k = choose|k: int| 0 <= k < s0.len() && s0[k] == x;
                    assert(self.coords@[k] == x);
                } else if self.coords@.contains(x) {
                    let k = choose|k: int| 0 <= k < self.coords@.len() && self.coords@[k] == x;
                    if k < self.coords@.len() - 1 {
                        assert(s0[k] == x);
                    }
                }
            }
        }
    }

    /// Drag to `coord`: rasterize the straight line from the last-seen
    /// coordinate to `coord`, both included, and record a visit of every
    /// coordinate on it.
    pub fn mouse_move(&mut self, coord: Coord)
        requires
            old(self).wf(),
            coord.bounded(),
        ensures
            final(self).wf(),
            final(self).last_seen() == coord,
            forall|x: Coord|
                #![trigger final(self).covers(x)]
                #![trigger old(self).covers(x)]
                final(self).covers(x) <==> old(self).covers(x) || line_seq(
                    old(self).last_seen(),
                    coord,
                ).contains(x),
    {
        let line = line_coords(self.last_coord, coord);
        let ghost lseq = line@;
        let ghost e0 = *self;
        let mut i: usize = 0;
        while i < line.len()
            invariant
                i <= lseq.len(),
                line@ == lseq,
                self.coords_seq().no_duplicates(),
                self.last_seen() == e0.last_seen(),
                e0.wf(),
                forall|x: Coord|
                    #![trigger self.covers(x)]
                    #![trigger e0.covers(x)]
                    self.covers(x) <==> e0.covers(x) || lseq.take(i as int).contains(x),
            decreases lseq.len() - i,
        {
            self.insert_coord(line[i]);
            proof {
                assert(lseq.take(i + 1).drop_last() =~= lseq.take(i as int));
                assert(lseq.take(i + 1).last() == lseq[i as int]);
                assert forall|x: Coord|
                    #![trigger self.covers(x)]
                    #![trigger e0.covers(x)]
                    self.covers(x) <==> e0.covers(x) || lseq.take(i + 1).contains(x) by {
                    assert(lseq.take(i + 1).contains(x) <==> lseq.take(i as int).contains(x) || x
                        == lseq[i as int]) by {
                        if lseq.take(i + 1).contains(x) {
                            let k = choose|k: int|
                                0 <= k < i + 1 && #[trigger] lseq.take(i + 1)[k] == x;
                            if k < i {
                                assert(lseq.take(i as int)[k] == x);
                            }
                        } else {
                            if lseq.take(i as int).contains(x) {
                                let k = choose|k: int|
                                    0 <= k < i && #[trigger] lseq.take(i as int)[k] == x;
                                assert(lseq.take(i + 1)[k] == x);
                            }
                            assert(lseq.take(i + 1)[i as int] == lseq[i as int]);
                        }
                    }
                }
            }
            i = i + 1;
        }
        let ghost e1 = *self;
        self.last_coord = coord;
        proof {
            assert(self.coords_seq() == e1.coords_seq());
            assert(lseq.take(lseq.len() as int) =~= lseq);
            assert forall|x: Coord|
                #![trigger self.covers(x)]
                #![trigger e0.covers(x)]
                self.covers(x) <==> e0.covers(x) || line_seq(e0.last_seen(), coord).contains(
                    x,
                ) by {
                assert(self.covers(x) == e1.covers(x));
            }
        }
    }

    /// Reset every visited coordinate to the transparent default: a full
    /// wipe, not a composite with a transparent color.
    pub fn commit(&self, raster: &mut Raster)
        requires
            old(raster).wf(),
        ensures
            final(raster).wf(),
            final(raster)@ == clear_seq(old(raster)@, self.coords_seq()),
    {
        clear_coords_exec(raster, &self.coords);
    }

    /// The erase's visual cue without touching the raster: every visited
    /// coordinate shown as the opaque blank marker.
    pub fn preview(&self) -> (r: Vec<(Coord, RenderCell)>)
        ensures
            r@ =~= self.coords_seq().map_values(|c: Coord| (c, eraser_marker())),
    {
        let marker = RenderCell {
            character: Some('\u{2588}'),
            style: Style {
                foreground: Some(Rgba32 { r: 0, g: 0, b: 0, a: 255 }),
                background: None,
                bold: None,
                underline: None,
            },
        };
        let mut r: Vec<(Coord, RenderCell)> = Vec::new();
        let mut j: usize = 0;
        while j < self.coords.len()
            invariant
                j <= self.coords@.len(),
                marker == eraser_marker(),
                r@ =~= self.coords@.take(j as int).map_values(|c: Coord| (c, eraser_marker())),
            decreases self.coords@.len() - j,
        {
            r.push((self.coords[j], marker));
            proof {
                assert(r@ =~= self.coords@.take(j + 1).map_values(
                    |c: Coord| (c, eraser_marker()),
                ));
            }
            j = j + 1;
        }
        proof {
            assert(self.coords@.take(self.coords@.len() as int) =~= self.coords@);
        }
        r
    }
}


/// `b` is `a` after a drag to `coord` of a pencil stroke.
pub open spec fn pencil_moved(a: PencilEvent, b: PencilEvent, coord: Coord) -> bool {
    if coord == a.last_seen() {
        b == a
    } else {
        &&& b.last_seen() == coord
        &&& forall|c: Coord|
            #![trigger b.count(c)]
            b.count(c) == sat_add_u32(
                a.count(c),
                coord_count(line_seq(a.last_seen(), coord).drop_first(), c),
            )
    }
}

/// `b` is `a` after a drag to `coord` of an erase stroke.
pub open spec fn erase_moved(a: EraseEvent, b: EraseEvent, coord: Coord) -> bool {
    &&& b.last_seen() == coord
    &&& forall|x: Coord|
        #![trigger b.covers(x)]
        #![trigger a.covers(x)]
        b.covers(x) <==> a.covers(x) || line_seq(a.last_seen(), coord).contains(x)
}

/// One drawing stroke in progress or committed: a tagged variant per tool,
/// each carrying only the geometry needed to replay it.
pub enum DrawingEvent {
    Pencil(PencilEvent),
    Fill(FillEvent),
    Line(LineEvent),
    Erase(EraseEvent),
}

/// `b` is `a` after a drag to `coord`: the same tool, moved as that tool
/// moves.
pub open spec fn event_moved(a: DrawingEvent, b: DrawingEvent, coord: Coord) -> bool {
    match (a, b) {
        (DrawingEvent::Pencil(p), DrawingEvent::Pencil(q)) => pencil_moved(p, q, coord),
        (DrawingEvent::Fill(_), DrawingEvent::Fill(g)) => g.seed() == coord,
        (DrawingEvent::Line(l), DrawingEvent::Line(m)) => m.start_coord() == l.start_coord()
            && m.end_coord() == coord,
        (DrawingEvent::Erase(e), DrawingEvent::Erase(f)) => erase_moved(e, f, coord),
        _ => false,
    }
}

/// The grid after committing event `e` with paint style `cell`: what each
/// tool deterministically does to the raster it is committed onto.
pub open spec fn commit_spec(e: DrawingEvent, cell: RenderCell, g: GridV) -> GridV {
    match e {
        DrawingEvent::Pencil(p) => pencil_paint(g, p.entries(), cell),
        DrawingEvent::Fill(f) => fill_spec(g, f.seed(), cell),
        DrawingEvent::Line(l) => paint_seq(g, line_seq(l.start_coord(), l.end_coord()), cell),
        DrawingEvent::Erase(er) => clear_seq(g, er.coords_seq()),
    }
}

/// `out` is the preview of event `e` with style `cell` against grid `g`.
pub open spec fn previewed(
    e: DrawingEvent,
    g: GridV,
    cell: RenderCell,
    out: Seq<(Coord, RenderCell)>,
) -> bool {
    match e {
        DrawingEvent::Pencil(p) => out == pencil_preview(p.entries(), g, cell),
        DrawingEvent::Fill(f) => fill_previewed(g, f.seed(), cell, out),
        DrawingEvent::Line(l) => out == paint_preview(
            g,
            line_seq(l.start_coord(), l.end_coord()),
            cell,
        ),
        DrawingEvent::Erase(er) => out == er.coords_seq().map_values(
            |c: Coord| (c, eraser_marker()),
        ),
    }
}

/// Committing keeps the grid's dimensions and well-formedness.
pub proof fn lemma_commit_spec_wf(e: DrawingEvent, cell: RenderCell, g: GridV)
    requires
        g.wf(),
    ensures
        commit_spec(e, cell, g).wf(),
        commit_spec(e, cell, g).width == g.width,
        commit_spec(e, cell, g).height == g.height,
{
    match e {
        DrawingEvent::Pencil(p) => lemma_pencil_paint_pointwise(g, p.entries(), cell),
        DrawingEvent::Fill(_) => {},
        DrawingEvent::Line(l) => lemma_paint_seq_pointwise(
            g,
            line_seq(l.start_coord(), l.end_coord()),
            cell,
        ),
        DrawingEvent::Erase(er) => lemma_clear_seq_pointwise(g, er.coords_seq()),
    }
}

impl DrawingEvent {
    pub open spec fn wf(self) -> bool {
        match self {
            DrawingEvent::Pencil(p) => p.wf(),
            DrawingEvent::Fill(_) => true,
            DrawingEvent::Line(l) => l.wf(),
            DrawingEvent::Erase(e) => e.wf(),
        }
    }

    /// A fill's seed must address a cell of the grid it is committed onto;
    /// the other tools can be committed anywhere.
    pub open spec fn commit_ready(self, g: GridV) -> bool {
        match self {
            DrawingEvent::Fill(f) => g.in_bounds(f.seed()),
            _ => true,
        }
    }

    /// Begin a pencil stroke at `coord`.
    pub fn pencil(coord: Coord) -> (r: Self)
        requires
            coord.bounded(),
        ensures
            r.wf(),
            r is Pencil,
            (r->Pencil_0).entries() =~= seq![(coord, 1u32)],
            (r->Pencil_0).last_seen() == coord,
    {
        DrawingEvent::Pencil(PencilEvent::mouse_press(coord))
    }

    /// Begin a fill stroke at `coord`.
    pub fn flood_fill(coord: Coord) -> (r: Self)
        ensures
            r.wf(),
            r is Fill,
            (r->Fill_0).seed() == coord,
    {
        DrawingEvent::Fill(FillEvent::mouse_press(coord))
    }

    /// Begin a line stroke at `coord`.
    pub fn line(coord: Coord) -> (r: Self)
        requires
            coord.bounded(),
        ensures
            r.wf(),
            r is Line,
            (r->Line_0).start_coord() == coord,
            (r->Line_0).end_coord() == coord,
    {
        DrawingEvent::Line(LineEvent::mouse_press(coord))
    }

    /// Begin an erase stroke at `coord`.
    pub fn erase(coord: Coord) -> (r: Self)
        requires
            coord.bounded(),
        ensures
            r.wf(),
            r is Erase,
            (r->Erase_0).coords_seq() =~= seq![coord],
            (r->Erase_0).last_seen() == coord,
    {
        DrawingEvent::Erase(EraseEvent::mouse_press(coord))
    }

    /// Forward a drag to the active tool.
    pub fn mouse_move(&mut self, coord: Coord)
        requires
            old(self).wf(),
            coord.bounded(),
        ensures
            final(self).wf(),
            event_moved(*old(self), *final(self), coord),
    {
        match self {
            DrawingEvent::Pencil(p) => p.mouse_move(coord),
            DrawingEvent::Fill(f) => f.mouse_move(coord),
            DrawingEvent::Line(l) => l.mouse_move(coord),
            DrawingEvent::Erase(e) => e.mouse_move(coord),
        }
    }

    /// Commit the stroke onto the raster with the given paint style.
    pub fn commit(&self, render_cell: RenderCell, raster: &mut Raster)
        requires
            old(raster).wf(),
            self.wf(),
            self.commit_ready(old(raster)@),
        ensures
            final(raster).wf(),
            final(raster)@ == commit_spec(*self, render_cell, old(raster)@),
    {
        match self {
            DrawingEvent::Pencil(p) => p.commit(render_cell, raster),
            DrawingEvent::Fill(f) => f.commit(render_cell, raster),
            DrawingEvent::Line(l) => l.commit(render_cell, raster),
            DrawingEvent::Erase(e) => e.commit(raster),
        }
    }

    /// The stroke's visual effect against the raster, without mutating it.
    pub fn preview(&self, raster: &Raster, render_cell: RenderCell) -> (r: Vec<
        (Coord, RenderCell),
    >)
        requires
            raster.wf(),
            self.wf(),
            self.commit_ready(raster@),
        ensures
            previewed(*self, raster@, render_cell, r@),
    {
        match self {
            DrawingEvent::Pencil(p) => p.preview(raster, render_cell),
            DrawingEvent::Fill(f) => f.preview(raster, render_cell),
            DrawingEvent::Line(l) => l.preview(raster, render_cell),
            DrawingEvent::Erase(e) => e.preview(),
        }
    }
}

/// One committed edit: the stroke plus the single paint style it was painted
/// with (fixed at stroke start, not re-evaluated per coordinate).
pub struct DrawingEventWithRenderCell {
    drawing_event: DrawingEvent,
    render_cell: RenderCell,
}

impl DrawingEventWithRenderCell {
    pub closed spec fn event(self) -> DrawingEvent {
        self.drawing_event
    }

    pub closed spec fn cell(self) -> RenderCell {
        self.render_cell
    }

    pub open spec fn wf(self) -> bool {
        self.event().wf()
    }

    pub fn new(drawing_event: DrawingEvent, render_cell: RenderCell) -> (r: Self)
        ensures
            r.event() == drawing_event,
            r.cell() == render_cell,
    {
        DrawingEventWithRenderCell { drawing_event, render_cell }
    }
}

/// The grid after replaying one committed edit.
pub open spec fn edit_commit(g: GridV, e: DrawingEventWithRenderCell) -> GridV {
    commit_spec(e.event(), e.cell(), g)
}

impl Raster {
    /// Commit one stored edit onto this raster: the edit's event applied with
    /// the edit's fixed style.
    pub fn commit_event(&mut self, event: &DrawingEventWithRenderCell)
        requires
            old(self).wf(),
            event.wf(),
            event.event().commit_ready(old(self)@),
        ensures
            final(self).wf(),
            final(self)@ == edit_commit(old(self)@, *event),
    {
        event.drawing_event.commit(event.render_cell, self);
    }
}


/// Overwrite the raster with each (coordinate, cell) pair in order: lay a
/// preview over a copy of the committed cells.
pub(crate) fn overlay_pairs(raster: &mut Raster, pairs: &Vec<(Coord, RenderCell)>)
    requires
        old(raster).wf(),
    ensures
        final(raster).wf(),
        final(raster)@ == overlay_seq(old(raster)@, pairs@),
{
    let ghost g0 = raster@;
    let mut j: usize = 0;
    while j < pairs.len()
        invariant
            j <= pairs@.len(),
            raster.wf(),
            raster@ == overlay_seq(g0, pairs@.take(j as int)),
        decreases pairs@.len() - j,
    {
        let (c, cell) = pairs[j];
        raster.put_coord(c, cell);
        proof {
            assert(pairs@.take(j + 1).drop_last() =~= pairs@.take(j as int));
            assert(pairs@.take(j + 1).last() == pairs@[j as int]);
        }
        j = j + 1;
    }
    proof {
        assert(pairs@.take(pairs@.len() as int) =~= pairs@);
    }
}

/// Whether every coordinate of `v` is distinct from every other.
fn coords_distinct(v: &Vec<Coord>) -> (r: bool)
    ensures
        r == v@.no_duplicates(),
{
    let mut p: usize = 0;
    while p < v.len()
        invariant
            p <= v@.len(),
            forall|i: int, j: int|
                0 <= i < j < v@.len() && i < p ==> #[trigger] v@[i] != #[trigger] v@[j],
        decreases v@.len() - p,
    {
        let mut q: usize = p + 1;
        while q < v.len()
            invariant
                p < q <= v@.len() || (p + 1 == q && q > v@.len()),
                p < v@.len(),
                forall|j: int| p < j < q ==> v@[p as int] != #[trigger] v@[j],
            decreases v@.len() - q,
        {
            if v[p] == v[q] {
                return false;
            }
            q = q + 1;
        }
        p = p + 1;
    }
    true
}

/// Whether every entry's coordinate is distinct from every other's.
fn entry_keys_distinct(v: &Vec<(Coord, u32)>) -> (r: bool)
    ensures
        r == (forall|i: int, j: int|
            0 <= i < j < v@.len() ==> (#[trigger] v@[i]).0 != (#[trigger] v@[j]).0),
{
    let mut p: usize = 0;
    while p < v.len()
        invariant
            p <= v@.len(),
            forall|i: int, j: int|
                0 <= i < j < v@.len() && i < p ==> (#[trigger] v@[i]).0 != (#[trigger] v@[j]).0,
        decreases v@.len() - p,
    {
        let mut q: usize = p + 1;
        while q < v.len()
            invariant
                p < q <= v@.len() || (p + 1 == q && q > v@.len()),
                p < v@.len(),
                forall|j: int| p < j < q ==> (v@[p as int]).0 != (#[trigger] v@[j]).0,
            decreases v@.len() - q,
        {
            let (cp, _) = v[p];
            let (cq, _) = v[q];
            if cp == cq {
                return false;
            }
            q = q + 1;
        }
        p = p + 1;
    }
    true
}

/// Whether a coordinate is within the line-safe range.
fn coord_bounded(c: Coord) -> (r: bool)
    ensures
        r == c.bounded(),
{
    -COORD_LIMIT <= c.x && c.x <= COORD_LIMIT && -COORD_LIMIT <= c.y && c.y <= COORD_LIMIT
}

impl PencilEvent {
    /// The recorded entries, for the surrounding layer to persist.
    pub fn parts(&self) -> (r: (&Vec<(Coord, u32)>, Coord))
        ensures
            r.0@ == self.entries(),
            r.1 == self.last_seen(),
    {
        (&self.coords, self.last_coord)
    }

    /// Rebuild a pencil stroke from persisted parts, validating them: the
    /// last-seen coordinate must be in the line-safe range, every visit count
    /// at least one, and no coordinate recorded twice.
    pub fn from_parts(coords: Vec<(Coord, u32)>, last_coord: Coord) -> (r: Option<PencilEvent>)
        ensures
            r is Some <==> last_coord.bounded() && (forall|j: int|
                0 <= j < coords@.len() ==> (#[trigger] coords@[j]).1 >= 1) && (forall|
                i: int,
                j: int,
            |
                0 <= i < j < coords@.len() ==> (#[trigger] coords@[i]).0 != (
                #[trigger] coords@[j]).0),
            r is Some ==> r->0.entries() == coords@ && r->0.last_seen() == last_coord && r->0.wf(),
    {
        if !coord_bounded(last_coord) {
            return None;
        }
        let mut j: usize = 0;
        while j < coords.len()
            invariant
                j <= coords@.len(),
                forall|k: int| 0 <= k < j ==> (#[trigger] coords@[k]).1 >= 1,
            decreases coords@.len() - j,
        {
            let (_, n) = coords[j];
            if n < 1 {
                return None;
            }
            j = j + 1;
        }
        if !entry_keys_distinct(&coords) {
            return None;
        }
        Some(PencilEvent { coords, last_coord })
    }
}

impl EraseEvent {
    /// The visited coordinates, for the surrounding layer to persist.
    pub fn parts(&self) -> (r: (&Vec<Coord>, Coord))
        ensures
            r.0@ == self.coords_seq(),
            r.1 == self.last_seen(),
    {
        (&self.coords, self.last_coord)
    }

    /// Rebuild an erase stroke from persisted parts, validating them: the
    /// last-seen coordinate must be in the line-safe range and no coordinate
    /// recorded twice.
    pub fn from_parts(coords: Vec<Coord>, last_coord: Coord) -> (r: Option<EraseEvent>)
        ensures
            r is Some <==> last_coord.bounded() && coords@.no_duplicates(),
            r is Some ==> r->0.coords_seq() == coords@ && r->0.last_seen() == last_coord
                && r->0.wf(),
    {
        if !coord_bounded(last_coord) {
            return None;
        }
        if !coords_distinct(&coords) {
            return None;
        }
        Some(EraseEvent { coords, last_coord })
    }
}

impl LineEvent {
    /// The endpoints, for the surrounding layer to persist.
    pub fn parts(&self) -> (r: (Coord, Coord))
        ensures
            r.0 == self.start_coord(),
            r.1 == self.end_coord(),
    {
        (self.start, self.end)
    }

    /// Rebuild a line stroke from persisted endpoints, validating that both
    /// are in the line-safe range.
    pub fn from_parts(start: Coord, end: Coord) -> (r: Option<LineEvent>)
        ensures
            r is Some <==> start.bounded() && end.bounded(),
            r is Some ==> r->0.start_coord() == start && r->0.end_coord() == end && r->0.wf(),
    {
        if coord_bounded(start) && coord_bounded(end) {
            Some(LineEvent { start, end })
        } else {
            None
        }
    }
}

impl FillEvent {
    /// The seed, for the surrounding layer to persist.
    pub fn parts(&self) -> (r: Coord)
        ensures
            r == self.seed(),
    {
        self.start
    }

    /// Rebuild a fill stroke from its persisted seed.
    pub fn from_parts(start: Coord) -> (r: FillEvent)
        ensures
            r.seed() == start,
    {
        FillEvent { start }
    }
}

impl DrawingEvent {
    /// Whether a fill's seed addresses a cell of the raster; the other tools
    /// are always ready.
    pub fn check_ready(&self, raster: &Raster) -> (r: bool)
        requires
            raster.wf(),
        ensures
            r == self.commit_ready(raster@),
    {
        match self {
            DrawingEvent::Fill(f) => raster.contains_coord(f.parts()),
            _ => true,
        }
    }
}

impl DrawingEventWithRenderCell {
    /// The stored event.
    pub fn event_ref(&self) -> (r: &DrawingEvent)
        ensures
            *r == self.event(),
    {
        &self.drawing_event
    }

    /// The stored paint style.
    pub fn cell_value(&self) -> (r: RenderCell)
        ensures
            r == self.cell(),
    {
        self.render_cell
    }
}


impl DrawingEvent {
    /// Whether the event is well formed, decided at run time (used to
    /// validate persisted strokes).
    pub fn check_wf(&self) -> (r: bool)
        ensures
            r == self.wf(),
    {
        match self {
            DrawingEvent::Pencil(p) => {
                let (coords, last_coord) = p.parts();
                if !coord_bounded(last_coord) {
                    proof {
                        assert(last_coord == p.last_seen());
                        assert(!p.last_seen().bounded());
                        assert(!p.wf());
                        assert(!self.wf());
                    }
                    return false;
                }
                let mut j: usize = 0;
                while j < coords.len()
                    invariant
                        j <= coords@.len(),
                        coords@ == p.entries(),
                        *self == DrawingEvent::Pencil(*p),
                        forall|k: int| 0 <= k < j ==> (#[trigger] coords@[k]).1 >= 1,
                    decreases coords@.len() - j,
                {
                    let (_, n) = coords[j];
                    if n < 1 {
                        proof {
                            assert((j as int) < p.entries().len());
                            assert((p.entries()[j as int]).1 < 1);
                            assert(exists|k: int|
                                0 <= k < p.entries().len() && (#[trigger] p.entries()[k]).1 < 1);
                            assert(!p.wf());
                            assert(self->Pencil_0 == *p);
                            assert(!self.wf());
                        }
                        return false;
                    }
                    j = j + 1;
                }
                let distinct = entry_keys_distinct(coords);
                proof {
                    if distinct {
                        assert forall|a: int, b: int|
                            0 <= a < b < p.entries().len() implies (#[trigger] p.entries()[a]).0
                            != (#[trigger] p.entries()[b]).0 by {
                            assert((coords@[a]).0 != (coords@[b]).0);
                        }
                        assert forall|k: int| 0 <= k < p.entries().len() implies (
                        #[trigger] p.entries()[k]).1 >= 1 by {
                            assert((coords@[k]).1 >= 1);
                        }
                    } else {
                        let (a, b) = choose|a: int, b: int|
                            0 <= a < b < coords@.len() && (#[trigger] coords@[a]).0 == (
                            #[trigger] coords@[b]).0;
                        assert((p.entries()[a]).0 == (p.entries()[b]).0);
                    }
                }
                distinct
            },
            DrawingEvent::Fill(_) => true,
            DrawingEvent::Line(l) => {
                let (start, end) = l.parts();
                coord_bounded(start) && coord_bounded(end)
            },
            DrawingEvent::Erase(e) => {
                let (coords, last_coord) = e.parts();
                if !coord_bounded(last_coord) {
                    return false;
                }
                coords_distinct(coords)
            },
        }
    }
}


/// Pencil idempotence on a single point: a pencil stroke that starts at a
/// coordinate and ends there without intermediate motion records exactly that
/// one coordinate, with visit count one.
pub proof fn lemma_pencil_point_stroke(a: PencilEvent, b: PencilEvent, coord: Coord)
    requires
        a.entries() == seq![(coord, 1u32)],
        a.last_seen() == coord,
        pencil_moved(a, b, coord),
    ensures
        b.entries() == seq![(coord, 1u32)],
        b.last_seen() == coord,
        forall|c: Coord| b.count(c) == if c == coord {
            1nat
        } else {
            0nat
        },
{
    assert(b == a);
    assert forall|c: Coord| b.count(c) == (if c == coord {
        1nat
    } else {
        0nat
    }) by {
        let s = b.entries();
        assert(s.len() == 1);
        assert(s.drop_last() =~= Seq::<(Coord, u32)>::empty());
        assert(entry_count(s.drop_last(), c) == 0);
        assert(s.last() == (coord, 1u32));
        assert(entry_count(s, c) == entry_count(s.drop_last(), c) + if s.last().0 == c {
            s.last().1 as nat
        } else {
            0nat
        });
    }
}

} // verus!
