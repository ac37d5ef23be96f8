//! Linear undo/redo over a replayable event log.
//!
//! The buffer keeps an immutable initial raster, the ordered history of
//! committed edits, and a redo stack. The current raster is always
//! `replay_spec(initial, history)`: undo and redo never mutate cells in
//! place, they move one edit between the two stacks and replay.

use vstd::prelude::*;
use crate::events::{edit_commit, lemma_commit_spec_wf, DrawingEventWithRenderCell};
use crate::raster::{GridV, Raster};

verus! {

/// The grid obtained by replaying `edits` in order onto `g`.
pub open spec fn replay_spec(g: GridV, edits: Seq<DrawingEventWithRenderCell>) -> GridV
    decreases edits.len(),
{
    if edits.len() == 0 {
        g
    } else {
        edit_commit(replay_spec(g, edits.drop_last()), edits.last())
    }
}

/// Every edit is well formed and, where it is a fill, its seed addresses a
/// cell of a grid with `g`'s dimensions.
pub open spec fn edits_ok(edits: Seq<DrawingEventWithRenderCell>, g: GridV) -> bool {
    forall|j: int|
        0 <= j < edits.len() ==> (#[trigger] edits[j]).wf() && edits[j].event().commit_ready(g)
}

/// Replaying keeps the grid's dimensions and well-formedness.
pub proof fn lemma_replay_wf(g: GridV, edits: Seq<DrawingEventWithRenderCell>)
    requires
        g.wf(),
        edits_ok(edits, g),
    ensures
        replay_spec(g, edits).wf(),
        replay_spec(g, edits).width == g.width,
        replay_spec(g, edits).height == g.height,
    decreases edits.len(),
{
    if edits.len() > 0 {
        let prefix = edits.drop_last();
        assert(edits_ok(prefix, g)) by {
            assert(forall|j: int| 0 <= j < prefix.len() ==> prefix[j] == #[trigger] edits[j]);
        }
        lemma_replay_wf(g, prefix);
        lemma_commit_spec_wf(edits.last().event(), edits.last().cell(), replay_spec(g, prefix));
    }
}

/// Round-trip replay: replaying a history extended by one edit is replaying
/// the history and then committing that edit, so a raster maintained
/// incrementally, edit by edit, always equals the replay of its full history.
pub proof fn lemma_replay_snoc(
    g: GridV,
    edits: Seq<DrawingEventWithRenderCell>,
    e: DrawingEventWithRenderCell,
)
    ensures
        replay_spec(g, edits.push(e)) == edit_commit(replay_spec(g, edits), e),
{
    assert(edits.push(e).drop_last() =~= edits);
    assert(edits.push(e).last() == e);
}

/// Undo/redo inverse: undoing (the history loses its last edit) and
/// immediately redoing (the same edit is pushed back) replays to exactly the
/// raster from before the undo.
pub proof fn lemma_undo_redo_inverse(g: GridV, h: Seq<DrawingEventWithRenderCell>)
    requires
        h.len() > 0,
    ensures
        replay_spec(g, h.drop_last().push(h.last())) == replay_spec(g, h),
{
    assert(h.drop_last().push(h.last()) =~= h);
}

/// Replaying an empty history returns the initial grid unchanged.
pub proof fn lemma_replay_empty(g: GridV)
    ensures
        replay_spec(g, Seq::<DrawingEventWithRenderCell>::empty()) == g,
{
}

/// What `undo` does to the (history, redo stack) pair.
pub open spec fn undo_tr(
    h: Seq<DrawingEventWithRenderCell>,
    r: Seq<DrawingEventWithRenderCell>,
) -> (Seq<DrawingEventWithRenderCell>, Seq<DrawingEventWithRenderCell>) {
    if h.len() == 0 {
        (h, r)
    } else {
        (h.drop_last(), r.push(h.last()))
    }
}

/// What `redo` does to the (history, redo stack) pair.
pub open spec fn redo_tr(
    h: Seq<DrawingEventWithRenderCell>,
    r: Seq<DrawingEventWithRenderCell>,
) -> (Seq<DrawingEventWithRenderCell>, Seq<DrawingEventWithRenderCell>) {
    if r.len() == 0 {
        (h, r)
    } else {
        (h.push(r.last()), r.drop_last())
    }
}

/// What committing a fresh edit does to the (history, redo stack) pair.
pub open spec fn commit_tr(
    h: Seq<DrawingEventWithRenderCell>,
    e: DrawingEventWithRenderCell,
) -> (Seq<DrawingEventWithRenderCell>, Seq<DrawingEventWithRenderCell>) {
    (h.push(e), Seq::empty())
}

/// Undo floor: on an empty history, undo leaves the buffer unchanged, so
/// repeating it returns the same raster every time.
pub proof fn lemma_undo_floor(
    h: Seq<DrawingEventWithRenderCell>,
    r: Seq<DrawingEventWithRenderCell>,
)
    requires
        h.len() == 0,
    ensures
        undo_tr(h, r) == (h, r),
        undo_tr(undo_tr(h, r).0, undo_tr(h, r).1) == (h, r),
{
}

/// Redo ceiling: on an empty redo stack, redo leaves the buffer unchanged, so
/// repeating it returns the same raster every time.
pub proof fn lemma_redo_ceiling(
    h: Seq<DrawingEventWithRenderCell>,
    r: Seq<DrawingEventWithRenderCell>,
)
    requires
        r.len() == 0,
    ensures
        redo_tr(h, r) == (h, r),
        redo_tr(redo_tr(h, r).0, redo_tr(h, r).1) == (h, r),
{
}

/// A fresh commit clears the redo stack, so a redo right after any commit is
/// a no-op even if the stack was non-empty before the commit: the buffer is
/// left as the commit made it.
pub proof fn lemma_commit_clears_redo(
    h: Seq<DrawingEventWithRenderCell>,
    e: DrawingEventWithRenderCell,
)
    ensures
        redo_tr(commit_tr(h, e).0, commit_tr(h, e).1) == commit_tr(h, e),
{
}

/// Undo and redo are inverse on the whole buffer state: for a non-empty
/// history, an undo followed by a redo restores both stacks exactly.
pub proof fn lemma_undo_redo_state_inverse(
    h: Seq<DrawingEventWithRenderCell>,
    r: Seq<DrawingEventWithRenderCell>,
)
    requires
        h.len() > 0,
    ensures
        redo_tr(undo_tr(h, r).0, undo_tr(h, r).1) == (h, r),
{
    assert(r.push(h.last()).drop_last() =~= r);
    assert(h.drop_last().push(h.last()) =~= h);
}

/// Whether every edit is well formed and committable against the raster.
fn edits_check(edits: &Vec<DrawingEventWithRenderCell>, raster: &Raster) -> (r: bool)
    requires
        raster.wf(),
    ensures
        r == edits_ok(edits@, raster@),
{
    let mut j: usize = 0;
    while j < edits.len()
        invariant
            j <= edits@.len(),
            raster.wf(),
            forall|k: int|
                0 <= k < j ==> (#[trigger] edits@[k]).wf() && edits@[k].event().commit_ready(
                    raster@,
                ),
        decreases edits@.len() - j,
    {
        let e = &edits[j];
        if !e.event_ref().check_wf() {
            return false;
        }
        if !e.event_ref().check_ready(raster) {
            return false;
        }
        j = j + 1;
    }
    true
}

/// An ordered log of committed edits plus a redo stack, with the immutable
/// initial raster they replay onto.
pub struct UndoBuffer {
    initial: Raster,
    events: Vec<DrawingEventWithRenderCell>,
    redo_buffer: Vec<DrawingEventWithRenderCell>,
}

impl UndoBuffer {
    /// The immutable initial grid.
    pub closed spec fn initial_grid(self) -> GridV {
        self.initial@
    }

    /// The committed edits, oldest first.
    pub closed spec fn history(self) -> Seq<DrawingEventWithRenderCell> {
        self.events@
    }

    /// The undone edits, most recently undone last.
    pub closed spec fn redo_stack(self) -> Seq<DrawingEventWithRenderCell> {
        self.redo_buffer@
    }

    pub open spec fn wf(self) -> bool {
        &&& self.initial_grid().wf()
        &&& edits_ok(self.history(), self.initial_grid())
        &&& edits_ok(self.redo_stack(), self.initial_grid())
    }

    /// A buffer whose history starts empty at the given initial raster.
    pub fn new(initial: Raster) -> (b: Self)
        requires
            initial.wf(),
        ensures
            b.wf(),
            b.initial_grid() == initial@,
            b.history() =~= Seq::<DrawingEventWithRenderCell>::empty(),
            b.redo_stack() =~= Seq::<DrawingEventWithRenderCell>::empty(),
    {
        UndoBuffer { initial, events: Vec::new(), redo_buffer: Vec::new() }
    }

    /// Replay the current history onto a fresh clone of the initial raster.
    fn replay(&self) -> (r: Raster)
        requires
            self.wf(),
        ensures
            r.wf(),
            r@ == replay_spec(self.initial_grid(), self.history()),
    {
        let ghost g0 = self.initial@;
        let mut raster = self.initial.clone();
        let mut j: usize = 0;
        while j < self.events.len()
            invariant
                j <= self.events@.len(),
                self.wf(),
                raster.wf(),
                raster@.width == g0.width,
                raster@.height == g0.height,
                g0 == self.initial_grid(),
                raster@ == replay_spec(g0, self.events@.take(j as int)),
            decreases self.events@.len() - j,
        {
            proof {
                assert(self.events@[j as int].wf() && self.events@[j as int].event().commit_ready(
                    g0,
                ));
                assert(self.events@[j as int].event().commit_ready(raster@));
            }
            let ghost gj = raster@;
            raster.commit_event(&self.events[j]);
            proof {
                assert(self.events@.take(j + 1).drop_last() =~= self.events@.take(j as int));
                assert(self.events@.take(j + 1).last() == self.events@[j as int]);
                lemma_commit_spec_wf(
                    self.events@[j as int].event(),
                    self.events@[j as int].cell(),
                    gj,
                );
            }
            j = j + 1;
        }
        proof {
            assert(self.events@.take(self.events@.len() as int) =~= self.events@);
            assert(self.history() == self.events@);
        }
        raster
    }

    /// Undo: if the history is non-empty, move its last edit to the redo
    /// stack; replay the (now shorter) history onto a fresh clone of the
    /// initial raster and return it. Undo below the bottom is a no-op that
    /// returns the initial raster, not an error.
    pub fn undo(&mut self) -> (r: Raster)
        requires
            old(self).wf(),
        ensures
            final(self).wf(),
            r.wf(),
            final(self).initial_grid() == old(self).initial_grid(),
            old(self).history().len() == 0 ==> final(self).history() == old(self).history()
                && final(self).redo_stack() == old(self).redo_stack() && r@ == old(
                self,
            ).initial_grid(),
            old(self).history().len() > 0 ==> final(self).history() == old(
                self,
            ).history().drop_last() && final(self).redo_stack() == old(self).redo_stack().push(
                old(self).history().last(),
            ) && r@ == replay_spec(old(self).initial_grid(), final(self).history()),
    {
        let ghost g0 = self.initial@;
        match self.events.pop() {
            Some(event) => {
                self.redo_buffer.push(event);
                proof {
                    assert(edits_ok(self.events@, g0)) by {
                        assert(forall|j: int|
                            0 <= j < self.events@.len() ==> self.events@[j] == #[trigger] old(
                                self,
                            ).events@[j]);
                    }
                    assert(edits_ok(self.redo_buffer@, g0)) by {
                        assert forall|j: int|
                            0 <= j < self.redo_buffer@.len() implies (
                        #[trigger] self.redo_buffer@[j]).wf()
                            && self.redo_buffer@[j].event().commit_ready(g0) by {
                            if j < self.redo_buffer@.len() - 1 {
                                assert(self.redo_buffer@[j] == old(self).redo_buffer@[j]);
                            } else {
                                assert(self.redo_buffer@[j] == old(self).events@[old(
                                    self,
                                ).events@.len() - 1]);
                            }
                        }
                    }
                }
                self.replay()
            },
            None => {
                proof {
                    lemma_replay_empty(g0);
                }
                self.initial.clone()
            },
        }
    }

    /// Redo: if the redo stack is non-empty, move its last edit back onto the
    /// history; replay the full history onto a fresh clone of the initial
    /// raster and return it. Redo above the top replays the unchanged
    /// history: a no-op, not an error.
    pub fn redo(&mut self) -> (r: Raster)
        requires
            old(self).wf(),
        ensures
            final(self).wf(),
            r.wf(),
            final(self).initial_grid() == old(self).initial_grid(),
            old(self).redo_stack().len() == 0 ==> final(self).history() == old(self).history()
                && final(self).redo_stack() == old(self).redo_stack(),
            old(self).redo_stack().len() > 0 ==> final(self).history() == old(self).history().push(
                old(self).redo_stack().last(),
            ) && final(self).redo_stack() == old(self).redo_stack().drop_last(),
            r@ == replay_spec(old(self).initial_grid(), final(self).history()),
            (final(self).history(), final(self).redo_stack()) == redo_tr(
                old(self).history(),
                old(self).redo_stack(),
            ),
    {
        let ghost g0 = self.initial@;
        match self.redo_buffer.pop() {
            Some(event) => {
                self.events.push(event);
                proof {
                    assert(edits_ok(self.redo_buffer@, g0)) by {
                        assert(forall|j: int|
                            0 <= j < self.redo_buffer@.len() ==> self.redo_buffer@[j]
                                == #[trigger] old(self).redo_buffer@[j]);
                    }
                    assert(edits_ok(self.events@, g0)) by {
                        assert forall|j: int|
                            0 <= j < self.events@.len() implies (#[trigger] self.events@[j]).wf()
                            && self.events@[j].event().commit_ready(g0) by {
                            if j < self.events@.len() - 1 {
                                assert(self.events@[j] == old(self).events@[j]);
                            } else {
                                assert(self.events@[j] == old(self).redo_buffer@[old(
                                    self,
                                ).redo_buffer@.len() - 1]);
                            }
                        }
                    }
                }
            },
            None => {},
        }
        self.replay()
    }

    /// Append a freshly committed edit to the history and clear the redo
    /// stack: the history is linear, committing forfeits anything undone.
    pub fn commit_event(&mut self, event: DrawingEventWithRenderCell)
        requires
            old(self).wf(),
            event.wf(),
            event.event().commit_ready(old(self).initial_grid()),
        ensures
            final(self).wf(),
            final(self).initial_grid() == old(self).initial_grid(),
            final(self).history() == old(self).history().push(event),
            final(self).redo_stack() =~= Seq::<DrawingEventWithRenderCell>::empty(),
            (final(self).history(), final(self).redo_stack()) == commit_tr(
                old(self).history(),
                event,
            ),
    {
        let ghost g0 = self.initial@;
        self.events.push(event);
        self.redo_buffer.clear();
        proof {
            assert(edits_ok(self.events@, g0)) by {
                assert forall|j: int|
                    0 <= j < self.events@.len() implies (#[trigger] self.events@[j]).wf()
                    && self.events@[j].event().commit_ready(g0) by {
                    if j < self.events@.len() - 1 {
                        assert(self.events@[j] == old(self).events@[j]);
                    }
                }
            }
        }
    }

    /// The initial raster, the history, and the redo stack, for the
    /// surrounding layer to persist.
    pub fn parts(&self) -> (r: (
        &Raster,
        &Vec<DrawingEventWithRenderCell>,
        &Vec<DrawingEventWithRenderCell>,
    ))
        ensures
            r.0@ == self.initial_grid(),
            r.1@ == self.history(),
            r.2@ == self.redo_stack(),
    {
        (&self.initial, &self.events, &self.redo_buffer)
    }

    /// Rebuild a buffer from persisted parts, validating that every edit in
    /// the history and the redo stack is well formed and committable against
    /// the initial raster.
    pub fn from_parts(
        initial: Raster,
        events: Vec<DrawingEventWithRenderCell>,
        redo_buffer: Vec<DrawingEventWithRenderCell>,
    ) -> (r: Option<UndoBuffer>)
        requires
            initial.wf(),
        ensures
            r is Some <==> edits_ok(events@, initial@) && edits_ok(redo_buffer@, initial@),
            r is Some ==> r->0.wf() && r->0.initial_grid() == initial@ && r->0.history()
                == events@ && r->0.redo_stack() == redo_buffer@,
    {
        if !edits_check(&events, &initial) {
            return None;
        }
        if !edits_check(&redo_buffer, &initial) {
            return None;
        }
        Some(UndoBuffer { initial, events, redo_buffer })
    }

    /// The raster the current history replays to, without changing anything.
    pub fn current(&self) -> (r: Raster)
        requires
            self.wf(),
        ensures
            r.wf(),
            r@ == replay_spec(self.initial_grid(), self.history()),
    {
        self.replay()
    }
}

} // verus!
