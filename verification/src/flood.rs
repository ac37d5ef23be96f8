//! Flood fill: the 4-connected region of cells structurally equal to the
//! seed's cell.
//!
//! The region is specified as the set of coordinates reachable from the seed
//! by cardinal steps through equal-celled, in-bounds coordinates
//! (`in_region`), and the breadth-style exploration in `Raster::flood_fill`
//! is proved to return exactly that set.

use vstd::prelude::*;
use crate::cell::RenderCell;
use crate::coords::{adjacent, Coord};
use crate::raster::{lemma_idx_bounds, lemma_idx_injective, GridV, Raster, MAX_DIM};

verus! {

/// `p` is a fill path in `g`: it starts at `seed`, and every later step moves
/// to a cardinal neighbor that is in bounds and stores a cell structurally
/// equal to the seed's.
pub open spec fn is_fill_path(g: GridV, seed: Coord, p: Seq<Coord>) -> bool {
    &&& p.len() >= 1
    &&& p[0] == seed
    &&& forall|i: int|
        0 < i < p.len() ==> adjacent(p[i - 1], #[trigger] p[i]) && g.in_bounds(p[i]) && g.at(p[i])
            == g.at(seed)
}

/// Reachable from `seed` through cardinal steps over in-bounds coordinates
/// whose stored cell equals the seed's.
pub open spec fn in_region(g: GridV, seed: Coord, c: Coord) -> bool {
    exists|p: Seq<Coord>| #[trigger] is_fill_path(g, seed, p) && p.last() == c
}

/// The flood-fill region of `seed`: every coordinate reachable from it.
pub open spec fn region(g: GridV, seed: Coord) -> Set<Coord> {
    Set::new(|c: Coord| in_region(g, seed, c))
}

/// The seed belongs to its own region.
pub proof fn lemma_region_seed(g: GridV, seed: Coord)
    ensures
        in_region(g, seed, seed),
{
    let p = seq![seed];
    assert(is_fill_path(g, seed, p));
    assert(p.last() == seed);
}

/// Every member of the region is in bounds and stores a cell structurally
/// equal to the seed's.
pub proof fn lemma_region_cells(g: GridV, seed: Coord, c: Coord)
    requires
        g.in_bounds(seed),
        in_region(g, seed, c),
    ensures
        g.in_bounds(c),
        g.at(c) == g.at(seed),
{
    let p = choose|p: Seq<Coord>| #[trigger] is_fill_path(g, seed, p) && p.last() == c;
    if p.len() == 1 {
        assert(c == seed);
    } else {
        assert(adjacent(p[p.len() - 2], p[p.len() - 1]));
    }
}

/// The region is closed under equal-celled, in-bounds cardinal neighbors.
pub proof fn lemma_region_extend(g: GridV, seed: Coord, c: Coord, d: Coord)
    requires
        in_region(g, seed, c),
        adjacent(c, d),
        g.in_bounds(d),
        g.at(d) == g.at(seed),
    ensures
        in_region(g, seed, d),
{
    let p = choose|p: Seq<Coord>| #[trigger] is_fill_path(g, seed, p) && p.last() == c;
    let q = p.push(d);
    assert(is_fill_path(g, seed, q)) by {
        assert(forall|i: int| 0 < i < p.len() ==> q[i] == #[trigger] p[i]);
        assert(q[p.len() as int] == d && q[p.len() - 1] == p.last());
    }
    assert(q.last() == d);
}

proof fn lemma_path_in_set(g: GridV, seed: Coord, s: Set<Coord>, p: Seq<Coord>)
    requires
        s.contains(seed),
        forall|a: Coord, b: Coord|
            s.contains(a) && #[trigger] adjacent(a, b) && g.in_bounds(b) && g.at(b) == g.at(seed)
                ==> s.contains(b),
        is_fill_path(g, seed, p),
    ensures
        s.contains(p.last()),
    decreases p.len(),
{
    if p.len() == 1 {
        assert(p.last() == seed);
    } else {
        let q = p.drop_last();
        assert(is_fill_path(g, seed, q)) by {
            assert(forall|i: int| 0 < i < q.len() ==> q[i] == #[trigger] p[i]);
            assert(forall|i: int| 0 < i < q.len() ==> q[i - 1] == #[trigger] p[i - 1]);
        }
        lemma_path_in_set(g, seed, s, q);
        assert(q.last() == p[p.len() - 2]);
        assert(adjacent(p[p.len() - 2], p[p.len() - 1]));
    }
}

/// The region is the least set of coordinates that contains the seed and is
/// closed under equal-celled, in-bounds cardinal neighbors: any such set
/// contains the whole region.
pub proof fn lemma_region_minimal(g: GridV, seed: Coord, s: Set<Coord>)
    requires
        s.contains(seed),
        forall|a: Coord, b: Coord|
            s.contains(a) && #[trigger] adjacent(a, b) && g.in_bounds(b) && g.at(b) == g.at(seed)
                ==> s.contains(b),
    ensures
        forall|c: Coord| region(g, seed).contains(c) ==> s.contains(c),
{
    assert forall|c: Coord| region(g, seed).contains(c) implies s.contains(c) by {
        let p = choose|p: Seq<Coord>| #[trigger] is_fill_path(g, seed, p) && p.last() == c;
        lemma_path_in_set(g, seed, s, p);
    }
}

/// How many entries of `s` are `true`.
pub open spec fn count_true(s: Seq<bool>) -> nat
    decreases s.len(),
{
    if s.len() == 0 {
        0
    } else {
        count_true(s.drop_last()) + if s.last() {
            1nat
        } else {
            0nat
        }
    }
}

proof fn lemma_count_true_le(s: Seq<bool>)
    ensures
        count_true(s) <= s.len(),
    decreases s.len(),
{
    if s.len() > 0 {
        lemma_count_true_le(s.drop_last());
    }
}

proof fn lemma_count_true_update(s: Seq<bool>, i: int)
    requires
        0 <= i < s.len(),
        !s[i],
    ensures
        count_true(s.update(i, true)) == count_true(s) + 1,
    decreases s.len(),
{
    let t = s.update(i, true);
    if i == s.len() - 1 {
        assert(t.drop_last() =~= s.drop_last());
    } else {
        assert(t.drop_last() =~= s.drop_last().update(i, true));
        lemma_count_true_update(s.drop_last(), i);
    }
}

/// The loop state of `flood_fill` is coherent: the flag vector marks exactly
/// the coordinates collected so far, which are distinct, in bounds, equal to
/// the seed's cell, and reachable; pending coordinates are a distinct subset
/// of the collected ones. (That every fully-processed coordinate has all its
/// equal-celled neighbors collected is stated separately, since it is
/// temporarily suspended for the coordinate being processed.)
spec fn fill_state(
    g: GridV,
    seed: Coord,
    flags: Seq<bool>,
    result: Seq<Coord>,
    queue: Seq<Coord>,
) -> bool {
    &&& flags.len() == g.cells.len()
    &&& result.no_duplicates()
    &&& result.contains(seed)
    &&& forall|j: int|
        0 <= j < result.len() ==> g.in_bounds(#[trigger] result[j]) && g.at(result[j]) == g.at(
            seed,
        ) && in_region(g, seed, result[j])
    &&& forall|c: Coord| g.in_bounds(c) ==> (flags[#[trigger] g.idx(c)] <==> result.contains(c))
    &&& count_true(flags) == result.len()
    &&& queue.no_duplicates()
    &&& forall|j: int| 0 <= j < queue.len() ==> result.contains(#[trigger] queue[j])
}

impl Raster {
    /// Consider one cardinal neighbor `d` of the coordinate `from` that is
    /// being processed: if it is in bounds, not yet collected, and stores a
    /// cell equal to the seed's, collect it and queue it for processing.
    ///
    /// The loop invariant is maintained in the weakened form that exempts
    /// `from` itself from the processed-closure clause (its remaining
    /// neighbors may not have been visited yet).
    #[verifier::rlimit(100)]
    #[verifier::spinoff_prover]
    fn flood_visit(
        &self,
        Ghost(seed): Ghost<Coord>,
        seed_cell: RenderCell,
        from: Coord,
        d: Coord,
        flags: &mut Vec<bool>,
        result: &mut Vec<Coord>,
        queue: &mut Vec<Coord>,
    )
        requires
            self.wf(),
            self@.in_bounds(seed),
            seed_cell == self@.at(seed),
            adjacent(from, d),
            in_region(self@, seed, from),
            fill_state(self@, seed, old(flags)@, old(result)@, old(queue)@),
            !old(queue)@.contains(from),
            forall|a: Coord, b: Coord|
                old(result)@.contains(a) && !old(queue)@.contains(a) && a != from
                    && #[trigger] adjacent(a, b) && self@.in_bounds(b) && self@.at(b) == self@.at(
                    seed,
                ) ==> old(result)@.contains(b),
        ensures
            final(flags)@.len() == old(flags)@.len(),
            final(result)@ == old(result)@ || final(result)@ == old(result)@.push(d),
            final(queue)@ == old(queue)@ || final(queue)@ == old(queue)@.push(d),
            final(result)@ == old(result)@ <==> final(queue)@ == old(queue)@,
            final(result)@.len() - old(result)@.len() == final(queue)@.len() - old(queue)@.len(),
            old(result)@.len() <= final(result)@.len(),
            forall|x: Coord| old(result)@.contains(x) ==> final(result)@.contains(x),
            forall|x: Coord| old(queue)@.contains(x) ==> final(queue)@.contains(x),
            count_true(final(flags)@) == final(result)@.len(),
            final(result)@.no_duplicates(),
            final(result)@.contains(seed),
            final(queue)@.no_duplicates(),
            !final(queue)@.contains(from),
            forall|j: int|
                0 <= j < final(result)@.len() ==> self@.in_bounds(#[trigger] final(result)@[j])
                    && self@.at(final(result)@[j]) == self@.at(seed) && in_region(
                    self@,
                    seed,
                    final(result)@[j],
                ),
            forall|c: Coord|
                self@.in_bounds(c) ==> (final(flags)@[#[trigger] self@.idx(c)] <==> final(result)@.contains(c)),
            forall|j: int|
                0 <= j < final(queue)@.len() ==> final(result)@.contains(
                    #[trigger] final(queue)@[j],
                ),
            forall|a: Coord, b: Coord|
                final(result)@.contains(a) && !final(queue)@.contains(a) && a != from
                    && #[trigger] adjacent(a, b) && self@.in_bounds(b) && self@.at(b) == self@.at(
                    seed,
                ) ==> final(result)@.contains(b),
            self@.in_bounds(d) && self@.at(d) == self@.at(seed) ==> final(result)@.contains(d),
    {
        let ghost g = self@;
        if self.contains_coord(d) {
            let i = self.idx_exec(d);
            if !flags[i] {
                let cell = self.get(d).unwrap();
                if cell == seed_cell {
                    proof {
                        assert(!old(result)@.contains(d)) by {
                            assert(old(flags)@[g.idx(d)] == false);
                        }
                        assert(!old(queue)@.contains(d)) by {
                            if old(queue)@.contains(d) {
                                let j = choose|j: int|
                                    0 <= j < old(queue)@.len() && old(queue)@[j] == d;
                                assert(old(result)@.contains(d));
                            }
                        }
                    }
                    flags.set(i, true);
                    result.push(d);
                    queue.push(d);
                    proof {
                        lemma_region_extend(g, seed, from, d);
                        lemma_count_true_update(old(flags)@, i as int);
                        assert(result@ == old(result)@.push(d));
                        assert(queue@ == old(queue)@.push(d));
                        assert forall|x: Coord| old(result)@.contains(x) implies result@.contains(
                            x,
                        ) by {
                            let j = choose|j: int|
                                0 <= j < old(result)@.len() && old(result)@[j] == x;
                            assert(result@[j] == x);
                        }
                        assert forall|x: Coord| old(queue)@.contains(x) implies queue@.contains(
                            x,
                        ) by {
                            let j = choose|j: int|
                                0 <= j < old(queue)@.len() && old(queue)@[j] == x;
                            assert(queue@[j] == x);
                        }
                        assert(result@.contains(d)) by {
                            assert(result@[result@.len() - 1] == d);
                        }
                        assert forall|c: Coord| g.in_bounds(c) implies (flags@[#[trigger] g.idx(c)]
                            <==> result@.contains(c)) by {
                            lemma_idx_bounds(g, c);
                            if c == d {
                            } else {
                                assert(g.idx(c) != g.idx(d)) by {
                                    if g.idx(c) == g.idx(d) {
                                        lemma_idx_injective(g, c, d);
                                    }
                                }
                                assert(flags@[g.idx(c)] == old(flags)@[g.idx(c)]);
                                assert(result@.contains(c) <==> old(result)@.contains(c)) by {
                                    if old(result)@.contains(c) {
                                        let j = choose|j: int|
                                            0 <= j < old(result)@.len() && old(result)@[j] == c;
                                        assert(result@[j] == c);
                                    } else if result@.contains(c) {
                                        let j = choose|j: int|
                                            0 <= j < result@.len() && result@[j] == c;
                                        assert(j < result@.len() - 1 ==> old(result)@[j] == c);
                                    }
                                }
                            }
                        }
                        assert(result@.no_duplicates()) by {
                            assert forall|p: int, q: int| 0 <= p < q < result@.len() implies result@[p]
                                != result@[q] by {
                                if q == result@.len() - 1 {
                                    assert(result@[q] == d);
                                    assert(old(result)@[p] == result@[p]);
                                    assert(old(result)@.contains(result@[p]));
                                }
                            }
                        }
                        assert(queue@.no_duplicates()) by {
                            assert forall|p: int, q: int| 0 <= p < q < queue@.len() implies queue@[p]
                                != queue@[q] by {
                                if q == queue@.len() - 1 {
                                    assert(queue@[q] == d);
                                    assert(old(queue)@[p] == queue@[p]);
                                    assert(old(queue)@.contains(queue@[p]));
                                }
                            }
                        }
                        assert(result@.contains(seed)) by {
                            let j = choose|j: int|
                                0 <= j < old(result)@.len() && old(result)@[j] == seed;
                            assert(result@[j] == seed);
                        }
                        assert(!queue@.contains(from)) by {
                            if queue@.contains(from) {
                                let j = choose|j: int| 0 <= j < queue@.len() && queue@[j] == from;
                                if j < queue@.len() - 1 {
                                    assert(old(queue)@[j] == from);
                                } else {
                                    assert(queue@[j] == d);
                                    assert(adjacent(from, d));
                                }
                            }
                        }
                        assert forall|a: Coord, b: Coord|
                            result@.contains(a) && !queue@.contains(a) && a != from
                                && #[trigger] adjacent(a, b) && g.in_bounds(b) && g.at(b) == g.at(
                                seed,
                            ) implies result@.contains(b) by {
                            assert(a != d) by {
                                if a == d {
                                    assert(queue@[queue@.len() - 1] == d);
                                    assert(queue@.contains(d));
                                }
                            }
                            assert(old(result)@.contains(a)) by {
                                let j = choose|j: int|
                                    0 <= j < result@.len() && result@[j] == a;
                                assert(j < result@.len() - 1);
                                assert(old(result)@[j] == a);
                            }
                            assert(!old(queue)@.contains(a)) by {
                                if old(queue)@.contains(a) {
                                    let j = choose|j: int|
                                        0 <= j < old(queue)@.len() && old(queue)@[j] == a;
                                    assert(queue@[j] == a);
                                }
                            }
                            assert(old(result)@.contains(b));
                            let j = choose|j: int|
                                0 <= j < old(result)@.len() && old(result)@[j] == b;
                            assert(result@[j] == b);
                        }
                        assert forall|j: int| 0 <= j < queue@.len() implies result@.contains(
                            #[trigger] queue@[j],
                        ) by {
                            if j < queue@.len() - 1 {
                                assert(old(queue)@[j] == queue@[j]);
                                assert(old(result)@.contains(queue@[j]));
                                let k = choose|k: int|
                                    0 <= k < old(result)@.len() && old(result)@[k] == queue@[j];
                                assert(result@[k] == queue@[j]);
                            } else {
                                assert(queue@[j] == d);
                            }
                        }
                    }
                }
            }
        }
    }

    /// Process one pending coordinate: pop it and visit its four cardinal
    /// neighbors, collecting any that are in bounds, uncollected and
    /// equal-celled. Restores the exploration invariant and makes progress:
    /// either a coordinate was collected or the pending queue shrank.
    #[verifier::rlimit(100)]
    #[verifier::spinoff_prover]
    fn flood_process(
        &self,
        Ghost(seed): Ghost<Coord>,
        seed_cell: RenderCell,
        flags: &mut Vec<bool>,
        result: &mut Vec<Coord>,
        queue: &mut Vec<Coord>,
    )
        requires
            self.wf(),
            self@.in_bounds(seed),
            seed_cell == self@.at(seed),
            old(queue)@.len() > 0,
            fill_state(self@, seed, old(flags)@, old(result)@, old(queue)@),
            forall|a: Coord, b: Coord|
                old(result)@.contains(a) && !old(queue)@.contains(a) && #[trigger] adjacent(a, b)
                    && self@.in_bounds(b) && self@.at(b) == self@.at(seed) ==> old(result)@.contains(b),
        ensures
            fill_state(self@, seed, final(flags)@, final(result)@, final(queue)@),
            forall|a: Coord, b: Coord|
                final(result)@.contains(a) && !final(queue)@.contains(a) && #[trigger] adjacent(
                    a,
                    b,
                ) && self@.in_bounds(b) && self@.at(b) == self@.at(seed) ==> final(result)@.contains(b),
            final(result)@.len() > old(result)@.len() || final(queue)@.len() < old(queue)@.len(),
            old(result)@.len() <= final(result)@.len(),
    {
        let ghost g = self@;
        let ghost result_at_top = result@;
        let ghost queue_at_top = queue@;
        let c = queue.pop().unwrap();
        proof {
            assert(queue_at_top =~= queue@.push(c));
            assert(queue@.no_duplicates()) by {
                assert(forall|j: int|
                    0 <= j < queue@.len() ==> queue@[j] == #[trigger] queue_at_top[j]);
            }
            assert(!queue@.contains(c)) by {
                if queue@.contains(c) {
                    let j = choose|j: int| 0 <= j < queue@.len() && queue@[j] == c;
                    assert(queue_at_top[j] == c);
                    assert(queue_at_top[queue_at_top.len() - 1] == c);
                }
            }
            assert(result@.contains(c)) by {
                assert(queue_at_top[queue_at_top.len() - 1] == c);
                assert(result@.contains(queue_at_top[queue_at_top.len() - 1]));
            }
            assert(in_region(g, seed, c) && g.in_bounds(c) && g.at(c) == g.at(seed)) by {
                let j = choose|j: int| 0 <= j < result@.len() && result@[j] == c;
            }
            assert(fill_state(g, seed, flags@, result@, queue@)) by {
                assert(forall|j: int|
                    0 <= j < queue@.len() ==> result@.contains(#[trigger] queue@[j]));
            }
            assert forall|a: Coord, b: Coord|
                result@.contains(a) && !queue@.contains(a) && a != c && #[trigger] adjacent(a, b)
                    && g.in_bounds(b) && g.at(b) == g.at(seed) implies result@.contains(b) by {
                assert(!queue_at_top.contains(a)) by {
                    if queue_at_top.contains(a) {
                        let j = choose|j: int|
                            0 <= j < queue_at_top.len() && queue_at_top[j] == a;
                        assert(j < queue_at_top.len() - 1);
                        assert(queue@[j] == a);
                    }
                }
            }
        }
        let up = Coord { x: c.x, y: c.y - 1 };
        let right = Coord { x: c.x + 1, y: c.y };
        let down = Coord { x: c.x, y: c.y + 1 };
        let left = Coord { x: c.x - 1, y: c.y };
        proof {
            assert(adjacent(c, up) && adjacent(c, right) && adjacent(c, down) && adjacent(c, left));
        }
        self.flood_visit(Ghost(seed), seed_cell, c, up, flags, result, queue);
        self.flood_visit(Ghost(seed), seed_cell, c, right, flags, result, queue);
        self.flood_visit(Ghost(seed), seed_cell, c, down, flags, result, queue);
        self.flood_visit(Ghost(seed), seed_cell, c, left, flags, result, queue);
        proof {
            assert forall|a: Coord, b: Coord|
                result@.contains(a) && !queue@.contains(a) && #[trigger] adjacent(a, b)
                    && g.in_bounds(b) && g.at(b) == g.at(seed) implies result@.contains(b) by {
                if a == c {
                    assert(b == up || b == right || b == down || b == left);
                }
            }
            assert(fill_state(g, seed, flags@, result@, queue@));
            assert(result@.len() > result_at_top.len() || queue@.len() < queue_at_top.len());
        }
    }

    /// The set of coordinates whose cells the fill tool would paint when
    /// seeded at `seed`: a 4-connected exploration from `seed` over
    /// coordinates whose stored cell is structurally equal to the seed's,
    /// each coordinate visited at most once. The seed must be in bounds; the
    /// caller validates it.
    #[verifier::rlimit(100)]
    #[verifier::spinoff_prover]
    pub fn flood_fill(&self, seed: Coord) -> (r: Vec<Coord>)
        requires
            self.wf(),
            self@.in_bounds(seed),
        ensures
            r@.no_duplicates(),
            r@.to_set() == region(self@, seed),
    {
        let ghost g = self@;
        proof {
            lemma_idx_bounds(g, seed);
            assert(g.width * g.height == g.cells.len());
            assert(g.width * g.height <= MAX_DIM * MAX_DIM) by (nonlinear_arith)
                requires
                    0 <= g.width <= MAX_DIM,
                    0 <= g.height <= MAX_DIM,
            ;
        }
        let n = self.width() as usize * self.height() as usize;
        let mut flags: Vec<bool> = Vec::new();
        while flags.len() < n
            invariant
                flags@.len() <= n,
                n == g.cells.len(),
                count_true(flags@) == 0,
                forall|i: int| 0 <= i < flags@.len() ==> !flags@[i],
            decreases n - flags@.len(),
        {
            let ghost f0 = flags@;
            flags.push(false);
            proof {
                assert(flags@.drop_last() =~= f0);
            }
        }
        let mut result: Vec<Coord> = Vec::new();
        let mut queue: Vec<Coord> = Vec::new();
        let ghost flags0 = flags@;
        let i0 = self.idx_exec(seed);
        let seed_cell = self.get(seed).unwrap();
        flags.set(i0, true);
        result.push(seed);
        queue.push(seed);
        proof {
            lemma_region_seed(g, seed);
            lemma_count_true_update(flags0, i0 as int);
            assert(count_true(flags@) == 1);
            assert forall|c: Coord| g.in_bounds(c) implies (flags@[#[trigger] g.idx(c)]
                <==> result@.contains(c)) by {
                lemma_idx_bounds(g, c);
                if c == seed {
                    assert(result@[0] == seed);
                } else {
                    assert(g.idx(c) != g.idx(seed)) by {
                        if g.idx(c) == g.idx(seed) {
                            lemma_idx_injective(g, c, seed);
                        }
                    }
                    if result@.contains(c) {
                        let j = choose|j: int| 0 <= j < result@.len() && result@[j] == c;
                        assert(false);
                    }
                }
            }
            assert(result@.contains(seed)) by {
                assert(result@[0] == seed);
            }
            assert(queue@.contains(seed)) by {
                assert(queue@[0] == seed);
            }
            assert(fill_state(g, seed, flags@, result@, queue@));
        }
        while queue.len() > 0
            invariant
                self.wf(),
                g == self@,
                g.in_bounds(seed),
                seed_cell == g.at(seed),
                fill_state(g, seed, flags@, result@, queue@),
                forall|a: Coord, b: Coord|
                    result@.contains(a) && !queue@.contains(a) && #[trigger] adjacent(a, b)
                        && g.in_bounds(b) && g.at(b) == g.at(seed) ==> result@.contains(b),
            decreases g.cells.len() - result@.len(), queue@.len(),
        {
            proof {
                lemma_count_true_le(flags@);
            }
            self.flood_process(Ghost(seed), seed_cell, &mut flags, &mut result, &mut queue);
            proof {
                lemma_count_true_le(flags@);
            }
        }
        proof {
            assert forall|c: Coord| result@.contains(c) implies in_region(g, seed, c) by {
                let j = choose|j: int| 0 <= j < result@.len() && result@[j] == c;
                assert(in_region(g, seed, result@[j]));
            }
            lemma_region_minimal(g, seed, result@.to_set());
            assert(result@.to_set() =~= region(g, seed));
        }
        result
    }
}

} // verus!
