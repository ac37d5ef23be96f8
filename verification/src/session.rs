//! The canvas session: tool selection, the in-progress stroke, the committed
//! raster and the undo buffer, sequenced through the press–drag–release
//! lifecycle that a UI drives.

use vstd::prelude::*;
use crate::cell::{RenderCell, Style};
use crate::colour::Rgba32;
use crate::coords::Coord;
use crate::events::{
    commit_spec, event_moved, previewed, DrawingEvent, DrawingEventWithRenderCell,
};
use crate::palette::Palette;
use crate::paint::overlay_seq;
use crate::raster::{GridV, Raster};
use crate::undo::{lemma_replay_snoc, lemma_replay_wf, replay_spec, UndoBuffer};

verus! {

/// The drawing tools, in the order the tool list shows them. Eyedrop is not a
/// drawing event: it samples an existing cell's style as the active paint
/// style and never touches the stroke machinery.
#[derive(Clone, Copy, Debug, PartialEq, Eq, Structural)]
pub enum Tool {
    Pencil,
    Line,
    Fill,
    Erase,
    Eyedrop,
}

impl Tool {
    /// The tool's display name.
    pub fn name(self) -> (r: &'static str)
        ensures
            self is Pencil ==> r@ == "Pencil"@,
            self is Line ==> r@ == "Line"@,
            self is Fill ==> r@ == "Fill"@,
            self is Erase ==> r@ == "Erase"@,
            self is Eyedrop ==> r@ == "Eyedrop"@,
    {
        match self {
            Tool::Pencil => "Pencil",
            Tool::Line => "Line",
            Tool::Fill => "Fill",
            Tool::Erase => "Erase",
            Tool::Eyedrop => "Eyedrop",
        }
    }

    /// Every tool, in display order.
    pub fn all() -> (r: Vec<Tool>)
        ensures
            r@ =~= seq![Tool::Pencil, Tool::Fill, Tool::Line, Tool::Erase, Tool::Eyedrop],
    {
        let mut v: Vec<Tool> = Vec::new();
        v.push(Tool::Pencil);
        v.push(Tool::Fill);
        v.push(Tool::Line);
        v.push(Tool::Erase);
        v.push(Tool::Eyedrop);
        v
    }

    /// The freshly started drawing event of this tool, if it draws.
    pub fn new_event(self, coord: Coord) -> (r: Option<DrawingEvent>)
        requires
            coord.bounded(),
        ensures
            event_started(self, coord, r),
    {
        match self {
            Tool::Pencil => Some(DrawingEvent::pencil(coord)),
            Tool::Fill => Some(DrawingEvent::flood_fill(coord)),
            Tool::Line => Some(DrawingEvent::line(coord)),
            Tool::Erase => Some(DrawingEvent::erase(coord)),
            Tool::Eyedrop => None,
        }
    }
}

/// `r` is what starting a stroke of `tool` at `coord` produces: a
/// tool-appropriate event seeded at `coord`, or nothing for the eyedropper.
pub open spec fn event_started(tool: Tool, coord: Coord, r: Option<DrawingEvent>) -> bool {
    match tool {
        Tool::Pencil => {
            &&& r is Some
            &&& r->0 is Pencil
            &&& (r->0)->Pencil_0.entries() =~= seq![(coord, 1u32)]
            &&& (r->0)->Pencil_0.last_seen() == coord
            &&& (r->0).wf()
        },
        Tool::Fill => r is Some && r->0 is Fill && ((r->0)->Fill_0).seed() == coord && (
        r->0).wf(),
        Tool::Line => {
            &&& r is Some
            &&& r->0 is Line
            &&& ((r->0)->Line_0).start_coord() == coord
            &&& ((r->0)->Line_0).end_coord() == coord
            &&& (r->0).wf()
        },
        Tool::Erase => {
            &&& r is Some
            &&& r->0 is Erase
            &&& ((r->0)->Erase_0).coords_seq() =~= seq![coord]
            &&& ((r->0)->Erase_0).last_seen() == coord
            &&& (r->0).wf()
        },
        Tool::Eyedrop => r is None,
    }
}

/// Which palette entry a row has selected: none (the transparent entry) or an
/// index into that row's palette.
#[derive(Clone, Copy, Debug, PartialEq, Eq, Structural)]
pub enum PaletteIndex {
    Unset,
    Index(usize),
}

impl PaletteIndex {
    pub fn option(self) -> (r: Option<usize>)
        ensures
            r == self.option_spec(),
    {
        match self {
            PaletteIndex::Unset => None,
            PaletteIndex::Index(i) => Some(i),
        }
    }

    pub open spec fn option_spec(self) -> Option<usize> {
        match self {
            PaletteIndex::Unset => None,
            PaletteIndex::Index(i) => Some(i),
        }
    }
}

/// One value for each of the three palette rows: character, foreground and
/// background.
#[derive(Clone, Copy, Debug, PartialEq, Eq, Structural)]
pub struct PerPalette<T> {
    pub ch: T,
    pub fg: T,
    pub bg: T,
}

/// The selection state of the three palette rows; `None` in a row means no
/// selection was made there yet.
pub type PaletteIndices = PerPalette<Option<PaletteIndex>>;

/// The palette selection with nothing selected.
pub fn unselected_indices() -> (r: PaletteIndices)
    ensures
        r == (PerPalette {
            ch: None::<PaletteIndex>,
            fg: None::<PaletteIndex>,
            bg: None::<PaletteIndex>,
        }),
{
    PerPalette { ch: None, fg: None, bg: None }
}

/// A selected index points into its palette row.
pub open spec fn index_ok(i: Option<PaletteIndex>, len: int) -> bool {
    match i {
        Some(PaletteIndex::Index(k)) => k < len,
        _ => true,
    }
}



/// The palette selection, eyedropped style and opacities agree.
pub open spec fn same_selection(a: DrawingState, b: DrawingState) -> bool {
    &&& a.indices() == b.indices()
    &&& a.eyedrop() == b.eyedrop()
    &&& a.fg_alpha() == b.fg_alpha()
    &&& a.bg_alpha() == b.bg_alpha()
}

/// The tool list and the selected tool agree.
pub open spec fn same_tools(a: DrawingState, b: DrawingState) -> bool {
    a.tools_seq() == b.tools_seq() && a.tool_idx() == b.tool_idx()
}

/// The committed raster and the undo buffer agree.
pub open spec fn same_canvas(a: DrawingState, b: DrawingState) -> bool {
    a.canvas() == b.canvas() && a.buffer() == b.buffer()
}

/// The full state of one drawing session: palette selection, tools, the
/// committed raster, the in-progress stroke, and the undo buffer. The
/// committed raster is a cache of the undo buffer's replay; it is never
/// mutated except through commit, undo and redo.
pub struct DrawingState {
    palette_indices: PaletteIndices,
    tools: Vec<Tool>,
    tool_index: usize,
    canvas_state: Raster,
    current_event: Option<DrawingEvent>,
    undo_buffer: UndoBuffer,
    eyedrop_render_cell: Option<RenderCell>,
    fg_opacity: u8,
    bg_opacity: u8,
}

impl DrawingState {
    pub closed spec fn indices(self) -> PaletteIndices {
        self.palette_indices
    }

    pub closed spec fn tools_seq(self) -> Seq<Tool> {
        self.tools@
    }

    pub closed spec fn tool_idx(self) -> int {
        self.tool_index as int
    }

    /// The committed raster.
    pub closed spec fn canvas(self) -> GridV {
        self.canvas_state@
    }

    /// The in-progress stroke, if any.
    pub closed spec fn current(self) -> Option<DrawingEvent> {
        self.current_event
    }

    pub closed spec fn buffer(self) -> UndoBuffer {
        self.undo_buffer
    }

    pub closed spec fn eyedrop(self) -> Option<RenderCell> {
        self.eyedrop_render_cell
    }

    pub closed spec fn fg_alpha(self) -> u8 {
        self.fg_opacity
    }

    pub closed spec fn bg_alpha(self) -> u8 {
        self.bg_opacity
    }

    /// The session invariant: the undo buffer is coherent, the committed
    /// raster is exactly the replay of the history onto the initial raster,
    /// the selected tool exists, and any in-progress stroke is well formed.
    pub open spec fn wf(self) -> bool {
        &&& self.buffer().wf()
        &&& self.canvas() == replay_spec(self.buffer().initial_grid(), self.buffer().history())
        &&& self.canvas().wf()
        &&& 0 <= self.tool_idx() < self.tools_seq().len()
        &&& match self.current() {
            Some(e) => e.wf(),
            None => true,
        }
    }

    /// The palette selection points into the palette's rows.
    pub open spec fn indices_ok(self, palette: Palette) -> bool {
        &&& index_ok(self.indices().ch, palette.ch@.len() as int)
        &&& index_ok(self.indices().fg, palette.fg@.len() as int)
        &&& index_ok(self.indices().bg, palette.bg@.len() as int)
    }

    /// A fresh session: a blank 100 by 80 canvas, an empty history, the
    /// pencil selected, nothing selected in the palette, and fully opaque
    /// paint.
    pub fn new() -> (s: Self)
        ensures
            s.wf(),
            s.canvas().width == 100,
            s.canvas().height == 80,
            forall|i: int|
                0 <= i < s.canvas().cells.len() ==> s.canvas().cells[i]
                    == RenderCell::blank_spec(),
            s.buffer().history() =~= Seq::<DrawingEventWithRenderCell>::empty(),
            s.buffer().redo_stack() =~= Seq::<DrawingEventWithRenderCell>::empty(),
            s.buffer().initial_grid() == s.canvas(),
            s.tools_seq() =~= seq![Tool::Pencil, Tool::Fill, Tool::Line, Tool::Erase, Tool::Eyedrop],
            s.tool_idx() == 0,
            s.current() is None,
            s.eyedrop() is None,
            s.fg_alpha() == 255,
            s.bg_alpha() == 255,
            s.indices() == (PerPalette {
                ch: None::<PaletteIndex>,
                fg: None::<PaletteIndex>,
                bg: None::<PaletteIndex>,
            }),
    {
        let canvas_state = Raster::new(100, 80);
        let undo_buffer = UndoBuffer::new(canvas_state.clone());
        DrawingState {
            palette_indices: unselected_indices(),
            tools: Tool::all(),
            tool_index: 0,
            canvas_state,
            current_event: None,
            undo_buffer,
            eyedrop_render_cell: None,
            fg_opacity: 255,
            bg_opacity: 255,
        }
    }

    /// The selected tool.
    pub fn current_tool(&self) -> (r: Tool)
        requires
            self.wf(),
        ensures
            r == self.tools_seq()[self.tool_idx()],
    {
        self.tools[self.tool_index]
    }

    /// Select a tool by its position in the tool list.
    pub fn set_tool_index(&mut self, i: usize)
        requires
            old(self).wf(),
            i < old(self).tools_seq().len(),
        ensures
            final(self).wf(),
            final(self).tool_idx() == i,
            final(self).tools_seq() == old(self).tools_seq(),
            same_selection(*final(self), *old(self)),
            same_canvas(*final(self), *old(self)),
            final(self).current() == old(self).current(),
    {
        self.tool_index = i;
    }

    /// Select palette entries; an explicit selection clears any eyedropped
    /// style.
    pub fn select_palette(&mut self, indices: PaletteIndices)
        requires
            old(self).wf(),
        ensures
            final(self).wf(),
            final(self).indices() == indices,
            final(self).eyedrop() is None,
            final(self).fg_alpha() == old(self).fg_alpha(),
            final(self).bg_alpha() == old(self).bg_alpha(),
            same_tools(*final(self), *old(self)),
            same_canvas(*final(self), *old(self)),
            final(self).current() == old(self).current(),
    {
        self.palette_indices = indices;
        self.eyedrop_render_cell = None;
    }

    /// Adopt a sampled cell as the paint style; sampling clears the palette
    /// selection.
    pub fn set_eyedrop(&mut self, cell: RenderCell)
        requires
            old(self).wf(),
        ensures
            final(self).wf(),
            final(self).eyedrop() == Some(cell),
            final(self).indices() == (PerPalette {
                ch: None::<PaletteIndex>,
                fg: None::<PaletteIndex>,
                bg: None::<PaletteIndex>,
            }),
            final(self).fg_alpha() == old(self).fg_alpha(),
            final(self).bg_alpha() == old(self).bg_alpha(),
            same_tools(*final(self), *old(self)),
            same_canvas(*final(self), *old(self)),
            final(self).current() == old(self).current(),
    {
        self.eyedrop_render_cell = Some(cell);
        self.palette_indices = unselected_indices();
    }

    /// Set the opacity the next foreground color is painted with.
    pub fn set_fg_opacity(&mut self, a: u8)
        requires
            old(self).wf(),
        ensures
            final(self).wf(),
            final(self).fg_alpha() == a,
            final(self).bg_alpha() == old(self).bg_alpha(),
            final(self).indices() == old(self).indices(),
            final(self).eyedrop() == old(self).eyedrop(),
            same_tools(*final(self), *old(self)),
            same_canvas(*final(self), *old(self)),
            final(self).current() == old(self).current(),
    {
        self.fg_opacity = a;
    }

    /// Set the opacity the next background color is painted with.
    pub fn set_bg_opacity(&mut self, a: u8)
        requires
            old(self).wf(),
        ensures
            final(self).wf(),
            final(self).bg_alpha() == a,
            final(self).fg_alpha() == old(self).fg_alpha(),
            final(self).indices() == old(self).indices(),
            final(self).eyedrop() == old(self).eyedrop(),
            same_tools(*final(self), *old(self)),
            same_canvas(*final(self), *old(self)),
            final(self).current() == old(self).current(),
    {
        self.bg_opacity = a;
    }

    /// The selected character, if one is selected.
    pub open spec fn ch_spec(self, palette: Palette) -> Option<char> {
        match self.indices().ch {
            Some(PaletteIndex::Index(i)) => Some(palette.ch@[i as int]),
            _ => None,
        }
    }

    /// The selected foreground color at the current foreground opacity.
    pub open spec fn fg_spec(self, palette: Palette) -> Option<Rgba32> {
        match self.indices().fg {
            Some(PaletteIndex::Index(i)) => Some(
                Rgba32 {
                    r: palette.fg@[i as int].r,
                    g: palette.fg@[i as int].g,
                    b: palette.fg@[i as int].b,
                    a: self.fg_alpha(),
                },
            ),
            _ => None,
        }
    }

    /// The selected background color at the current background opacity.
    pub open spec fn bg_spec(self, palette: Palette) -> Option<Rgba32> {
        match self.indices().bg {
            Some(PaletteIndex::Index(i)) => Some(
                Rgba32 {
                    r: palette.bg@[i as int].r,
                    g: palette.bg@[i as int].g,
                    b: palette.bg@[i as int].b,
                    a: self.bg_alpha(),
                },
            ),
            _ => None,
        }
    }

    /// The paint style the next stroke commits with: the eyedropped cell if
    /// one was sampled, else the cell built from the palette selection.
    pub open spec fn current_cell_spec(self, palette: Palette) -> RenderCell {
        match self.eyedrop() {
            Some(cell) => cell,
            None => RenderCell {
                character: self.ch_spec(palette),
                style: Style {
                    foreground: self.fg_spec(palette),
                    background: self.bg_spec(palette),
                    bold: None,
                    underline: None,
                },
            },
        }
    }

    pub fn get_ch(&self, palette: &Palette) -> (r: Option<char>)
        requires
            self.indices_ok(*palette),
        ensures
            r == self.ch_spec(*palette),
    {
        match self.palette_indices.ch {
            Some(PaletteIndex::Index(i)) => Some(palette.ch[i]),
            _ => None,
        }
    }

    pub fn get_fg(&self, palette: &Palette) -> (r: Option<Rgba32>)
        requires
            self.indices_ok(*palette),
        ensures
            r == self.fg_spec(*palette),
    {
        match self.palette_indices.fg {
            Some(PaletteIndex::Index(i)) => Some(palette.fg[i].to_rgba32(self.fg_opacity)),
            _ => None,
        }
    }

    pub fn get_bg(&self, palette: &Palette) -> (r: Option<Rgba32>)
        requires
            self.indices_ok(*palette),
        ensures
            r == self.bg_spec(*palette),
    {
        match self.palette_indices.bg {
            Some(PaletteIndex::Index(i)) => Some(palette.bg[i].to_rgba32(self.bg_opacity)),
            _ => None,
        }
    }

    /// The paint style the next stroke commits with.
    pub fn current_render_cell(&self, palette: &Palette) -> (r: RenderCell)
        requires
            self.indices_ok(*palette),
        ensures
            r == self.current_cell_spec(*palette),
    {
        match self.eyedrop_render_cell {
            Some(cell) => cell,
            None => RenderCell {
                character: self.get_ch(palette),
                style: Style {
                    foreground: self.get_fg(palette),
                    background: self.get_bg(palette),
                    bold: None,
                    underline: None,
                },
            },
        }
    }

    /// Begin a stroke of the selected tool at `coord`, silently discarding
    /// any stroke already in progress.
    pub fn begin_stroke(&mut self, coord: Coord)
        requires
            old(self).wf(),
            coord.bounded(),
        ensures
            final(self).wf(),
            event_started(
                old(self).tools_seq()[old(self).tool_idx()],
                coord,
                final(self).current(),
            ),
            same_selection(*final(self), *old(self)),
            same_tools(*final(self), *old(self)),
            same_canvas(*final(self), *old(self)),
    {
        let tool = self.tools[self.tool_index];
        self.current_event = tool.new_event(coord);
    }

    /// Forward a drag to the in-progress stroke; a no-op when none is active.
    pub fn continue_stroke(&mut self, coord: Coord)
        requires
            old(self).wf(),
            coord.bounded(),
        ensures
            final(self).wf(),
            old(self).current() is None ==> *final(self) == *old(self),
            old(self).current() is Some ==> final(self).current() is Some && event_moved(
                old(self).current()->0,
                final(self).current()->0,
                coord,
            ) && same_selection(*final(self), *old(self)) && same_tools(
                *final(self),
                *old(self),
            ) && same_canvas(*final(self), *old(self)),
    {
        match &mut self.current_event {
            Some(e) => e.mouse_move(coord),
            None => {},
        }
    }

    /// Finish the in-progress stroke, if any: commit it onto the committed
    /// raster with the current paint style, append it to the history (which
    /// clears the redo stack), and clear the in-progress stroke.
    pub fn commit_current_event(&mut self, palette: &Palette)
        requires
            old(self).wf(),
            old(self).indices_ok(*palette),
            match old(self).current() {
                Some(e) => e.commit_ready(old(self).canvas()),
                None => true,
            },
        ensures
            final(self).wf(),
            old(self).current() is None ==> *final(self) == *old(self),
            old(self).current() is Some ==> {
                &&& final(self).current() is None
                &&& final(self).canvas() == commit_spec(
                    old(self).current()->0,
                    old(self).current_cell_spec(*palette),
                    old(self).canvas(),
                )
                &&& final(self).buffer().initial_grid() == old(self).buffer().initial_grid()
                &&& final(self).buffer().history().len() == old(self).buffer().history().len() + 1
                &&& final(self).buffer().history().drop_last() =~= old(self).buffer().history()
                &&& final(self).buffer().history().last().event() == old(self).current()->0
                &&& final(self).buffer().history().last().cell() == old(self).current_cell_spec(
                    *palette,
                )
                &&& final(self).buffer().redo_stack() =~= Seq::<
                    DrawingEventWithRenderCell,
                >::empty()
                &&& final(self).indices() == old(self).indices()
                &&& final(self).eyedrop() == old(self).eyedrop()
                &&& final(self).tools_seq() == old(self).tools_seq()
                &&& final(self).tool_idx() == old(self).tool_idx()
                &&& final(self).fg_alpha() == old(self).fg_alpha()
                &&& final(self).bg_alpha() == old(self).bg_alpha()
            },
    {
        let mut taken: Option<DrawingEvent> = None;
        core::mem::swap(&mut taken, &mut self.current_event);
        match taken {
            Some(drawing_event) => {
                let render_cell = self.current_render_cell(palette);
                let event = DrawingEventWithRenderCell::new(drawing_event, render_cell);
                proof {
                    lemma_replay_wf(
                        old(self).buffer().initial_grid(),
                        old(self).buffer().history(),
                    );
                }
                self.canvas_state.commit_event(&event);
                proof {
                    lemma_replay_snoc(
                        old(self).buffer().initial_grid(),
                        old(self).buffer().history(),
                        event,
                    );
                }
                self.undo_buffer.commit_event(event);
            },
            None => {},
        }
    }

    /// Undo the most recent commit, if any, and refresh the committed raster
    /// from the shortened history. Undoing below the bottom is a no-op.
    pub fn undo(&mut self)
        requires
            old(self).wf(),
        ensures
            final(self).wf(),
            final(self).current() == old(self).current(),
            final(self).buffer().initial_grid() == old(self).buffer().initial_grid(),
            old(self).buffer().history().len() == 0 ==> final(self).buffer().history() == old(self).buffer().history() && final(self).buffer().redo_stack() == old(self).buffer().redo_stack(),
            old(self).buffer().history().len() > 0 ==> final(self).buffer().history() == old(self).buffer().history().drop_last() && final(self).buffer().redo_stack() == old(self).buffer().redo_stack().push(old(self).buffer().history().last()),
            final(self).canvas() == replay_spec(
                old(self).buffer().initial_grid(),
                final(self).buffer().history(),
            ),
    {
        self.canvas_state = self.undo_buffer.undo();
        proof {
            if old(self).buffer().history().len() == 0 {
                crate::undo::lemma_replay_empty(old(self).buffer().initial_grid());
            }
        }
    }

    /// Redo the most recently undone commit, if any, and refresh the
    /// committed raster from the restored history. Redoing above the top is a
    /// no-op.
    pub fn redo(&mut self)
        requires
            old(self).wf(),
        ensures
            final(self).wf(),
            final(self).current() == old(self).current(),
            final(self).buffer().initial_grid() == old(self).buffer().initial_grid(),
            old(self).buffer().redo_stack().len() == 0 ==> final(self).buffer().history() == old(self).buffer().history() && final(self).buffer().redo_stack() == old(self).buffer().redo_stack(),
            old(self).buffer().redo_stack().len() > 0 ==> final(self).buffer().history() == old(self).buffer().history().push(old(self).buffer().redo_stack().last()) && final(self).buffer().redo_stack() == old(self).buffer().redo_stack().drop_last(),
            final(self).canvas() == replay_spec(
                old(self).buffer().initial_grid(),
                final(self).buffer().history(),
            ),
    {
        self.canvas_state = self.undo_buffer.redo();
    }

    /// The full current visual: the committed raster overlaid, where a stroke
    /// is in progress, with that stroke's preview; the preview wins at the
    /// coordinates it covers.
    pub fn current_visual(&self, palette: &Palette) -> (r: Raster)
        requires
            self.wf(),
            self.indices_ok(*palette),
            match self.current() {
                Some(e) => e.commit_ready(self.canvas()),
                None => true,
            },
        ensures
            r.wf(),
            self.current() is None ==> r@ == self.canvas(),
            self.current() is Some ==> exists|out: Seq<(Coord, RenderCell)>|
                #[trigger] previewed(
                    self.current()->0,
                    self.canvas(),
                    self.current_cell_spec(*palette),
                    out,
                ) && r@ == overlay_seq(self.canvas(), out),
    {
        let mut r = self.canvas_state.clone();
        match &self.current_event {
            Some(e) => {
                let cell = self.current_render_cell(palette);
                let pairs = e.preview(&self.canvas_state, cell);
                crate::events::overlay_pairs(&mut r, &pairs);
                proof {
                    assert(previewed(
                        self.current()->0,
                        self.canvas(),
                        self.current_cell_spec(*palette),
                        pairs@,
                    ));
                }
            },
            None => {},
        }
        r
    }
}


impl DrawingState {
    /// The committed raster, for rendering or persistence.
    pub fn canvas_ref(&self) -> (r: &Raster)
        ensures
            r@ == self.canvas(),
            r.wf() == self.canvas().wf(),
    {
        &self.canvas_state
    }

    /// The undo buffer, for persistence.
    pub fn buffer_ref(&self) -> (r: &UndoBuffer)
        ensures
            *r == self.buffer(),
    {
        &self.undo_buffer
    }

    /// The in-progress stroke, for rendering or persistence.
    pub fn current_ref(&self) -> (r: &Option<DrawingEvent>)
        ensures
            *r == self.current(),
    {
        &self.current_event
    }

    /// The tool list, for rendering or persistence.
    pub fn tools_ref(&self) -> (r: &Vec<Tool>)
        ensures
            r@ == self.tools_seq(),
    {
        &self.tools
    }

    pub fn tool_index_value(&self) -> (r: usize)
        ensures
            r == self.tool_idx(),
    {
        self.tool_index
    }

    pub fn indices_value(&self) -> (r: PaletteIndices)
        ensures
            r == self.indices(),
    {
        self.palette_indices
    }

    pub fn eyedrop_value(&self) -> (r: Option<RenderCell>)
        ensures
            r == self.eyedrop(),
    {
        self.eyedrop_render_cell
    }

    pub fn fg_opacity_value(&self) -> (r: u8)
        ensures
            r == self.fg_alpha(),
    {
        self.fg_opacity
    }

    pub fn bg_opacity_value(&self) -> (r: u8)
        ensures
            r == self.bg_alpha(),
    {
        self.bg_opacity
    }

    /// Rebuild a session from persisted parts, validating them: the selected
    /// tool must exist and any in-progress stroke must be well formed. The
    /// committed raster is not taken from outside: it is recomputed by
    /// replaying the buffer's history, which keeps the session invariant by
    /// construction.
    pub fn from_parts(
        palette_indices: PaletteIndices,
        tools: Vec<Tool>,
        tool_index: usize,
        current_event: Option<DrawingEvent>,
        undo_buffer: UndoBuffer,
        eyedrop_render_cell: Option<RenderCell>,
        fg_opacity: u8,
        bg_opacity: u8,
    ) -> (r: Option<DrawingState>)
        requires
            undo_buffer.wf(),
        ensures
            r is Some <==> tool_index < tools@.len() && match current_event {
                Some(e) => e.wf(),
                None => true,
            },
            r is Some ==> {
                &&& r->0.wf()
                &&& r->0.indices() == palette_indices
                &&& r->0.tools_seq() == tools@
                &&& r->0.tool_idx() == tool_index
                &&& r->0.current() == current_event
                &&& r->0.buffer() == undo_buffer
                &&& r->0.eyedrop() == eyedrop_render_cell
                &&& r->0.fg_alpha() == fg_opacity
                &&& r->0.bg_alpha() == bg_opacity
            },
    {
        if tool_index >= tools.len() {
            return None;
        }
        match &current_event {
            Some(e) => {
                if !e.check_wf() {
                    return None;
                }
            },
            None => {},
        }
        let canvas_state = undo_buffer.current();
        Some(
            DrawingState {
                palette_indices,
                tools,
                tool_index,
                canvas_state,
                current_event,
                undo_buffer,
                eyedrop_render_cell,
                fg_opacity,
                bg_opacity,
            },
        )
    }
}

} // verus!
