use text_paint::cell::{RenderCell, Style};
use text_paint::colour::{Rgb24, Rgba32};
use text_paint::coords::Coord;
use text_paint::events::{DrawingEvent, PencilEvent};
use text_paint::palette::Palette;
use text_paint::raster::Raster;
use text_paint::session::{DrawingState, PaletteIndex, PerPalette, Tool};
use text_paint::undo::UndoBuffer;

fn test_palette() -> Palette {
    Palette {
        fg: vec![Rgb24 { r: 255, g: 0, b: 0 }, Rgb24 { r: 0, g: 255, b: 0 }],
        bg: vec![Rgb24 { r: 0, g: 0, b: 255 }],
        ch: vec!['x', 'o'],
    }
}

fn select_all(state: &mut DrawingState) {
    state.select_palette(PerPalette {
        ch: Some(PaletteIndex::Index(0)),
        fg: Some(PaletteIndex::Index(0)),
        bg: Some(PaletteIndex::Index(0)),
    });
}

#[test]
fn tools_are_listed_in_display_order() {
    assert_eq!(
        Tool::all(),
        vec![Tool::Pencil, Tool::Fill, Tool::Line, Tool::Erase, Tool::Eyedrop]
    );
    assert_eq!(Tool::Pencil.name(), "Pencil");
    assert_eq!(Tool::Eyedrop.name(), "Eyedrop");
}

#[test]
fn palette_index_option() {
    assert_eq!(PaletteIndex::Unset.option(), None);
    assert_eq!(PaletteIndex::Index(3).option(), Some(3));
}

#[test]
fn current_render_cell_follows_the_selection() {
    let palette = test_palette();
    let mut state = DrawingState::new();
    select_all(&mut state);
    let cell = state.current_render_cell(&palette);
    assert_eq!(cell.character, Some('x'));
    assert_eq!(
        cell.style.foreground,
        Some(Rgba32 { r: 255, g: 0, b: 0, a: 255 })
    );
    assert_eq!(
        cell.style.background,
        Some(Rgba32 { r: 0, g: 0, b: 255, a: 255 })
    );
    state.set_fg_opacity(100);
    let faded = state.current_render_cell(&palette);
    assert_eq!(
        faded.style.foreground,
        Some(Rgba32 { r: 255, g: 0, b: 0, a: 100 })
    );
}

#[test]
fn eyedrop_overrides_the_palette_selection() {
    let palette = test_palette();
    let mut state = DrawingState::new();
    select_all(&mut state);
    let sampled = RenderCell {
        character: Some('q'),
        style: Style {
            foreground: None,
            background: Some(Rgba32 { r: 7, g: 8, b: 9, a: 255 }),
            bold: None,
            underline: None,
        },
    };
    state.set_eyedrop(sampled);
    assert_eq!(state.current_render_cell(&palette), sampled);
    // An explicit palette selection clears the sampled style again.
    select_all(&mut state);
    assert_eq!(state.current_render_cell(&palette).character, Some('x'));
}

#[test]
fn a_full_stroke_commits_and_undoes() {
    let palette = test_palette();
    let mut state = DrawingState::new();
    select_all(&mut state);
    // The pencil is the default tool at index 0.
    assert_eq!(state.current_tool(), Tool::Pencil);
    state.begin_stroke(Coord::new(3, 4));
    state.continue_stroke(Coord::new(5, 4));
    state.commit_current_event(&palette);
    let committed = state.canvas_ref();
    let painted = committed.get(Coord::new(4, 4)).unwrap();
    assert_eq!(painted.character, Some('x'));
    state.undo();
    assert_eq!(
        state.canvas_ref().get(Coord::new(4, 4)).unwrap(),
        RenderCell::blank()
    );
    state.redo();
    assert_eq!(
        state.canvas_ref().get(Coord::new(4, 4)).unwrap().character,
        Some('x')
    );
}

#[test]
fn pencil_point_stroke_records_one_visit() {
    let mut state = DrawingState::new();
    state.begin_stroke(Coord::new(2, 2));
    state.continue_stroke(Coord::new(2, 2));
    match state.current_ref() {
        Some(DrawingEvent::Pencil(p)) => {
            let (coords, last) = p.parts();
            assert_eq!(coords.len(), 1);
            assert_eq!((coords[0].0.x, coords[0].0.y), (2, 2));
            assert_eq!(coords[0].1, 1);
            assert_eq!((last.x, last.y), (2, 2));
        }
        other => panic!("expected a pencil event, got {:?}", other.is_some()),
    }
}

#[test]
fn beginning_a_stroke_discards_an_unfinished_one() {
    let mut state = DrawingState::new();
    state.begin_stroke(Coord::new(1, 1));
    state.begin_stroke(Coord::new(9, 9));
    match state.current_ref() {
        Some(DrawingEvent::Pencil(p)) => {
            let (coords, _) = p.parts();
            assert_eq!(coords.len(), 1);
            assert_eq!((coords[0].0.x, coords[0].0.y), (9, 9));
        }
        _ => panic!("expected a pencil event"),
    }
}

#[test]
fn eyedrop_tool_starts_no_event() {
    let mut state = DrawingState::new();
    state.set_tool_index(4);
    assert_eq!(state.current_tool(), Tool::Eyedrop);
    state.begin_stroke(Coord::new(0, 0));
    assert!(state.current_ref().is_none());
}

#[test]
fn current_visual_overlays_the_preview() {
    let palette = test_palette();
    let mut state = DrawingState::new();
    select_all(&mut state);
    state.begin_stroke(Coord::new(0, 0));
    let visual = state.current_visual(&palette);
    let shown = visual.get(Coord::new(0, 0)).unwrap();
    assert_eq!(shown.character, Some('x'), "the preview must win at its coordinates");
    assert_eq!(
        state.canvas_ref().get(Coord::new(0, 0)).unwrap(),
        RenderCell::blank(),
        "the committed raster must be untouched"
    );
    let elsewhere = visual.get(Coord::new(5, 5)).unwrap();
    assert_eq!(elsewhere, RenderCell::blank());
}

#[test]
fn session_round_trips_through_its_parts() {
    let palette = test_palette();
    let mut state = DrawingState::new();
    select_all(&mut state);
    state.begin_stroke(Coord::new(1, 1));
    state.continue_stroke(Coord::new(3, 1));
    state.commit_current_event(&palette);
    state.set_tool_index(2);
    state.begin_stroke(Coord::new(5, 5));

    let buffer = state.buffer_ref();
    let (initial, history, redo) = buffer.parts();
    let rebuilt_buffer = UndoBuffer::from_parts(
        initial.clone(),
        clone_edits(history),
        clone_edits(redo),
    )
    .expect("persisted buffer must validate");
    let rebuilt = DrawingState::from_parts(
        state.indices_value(),
        state.tools_ref().clone(),
        state.tool_index_value(),
        clone_event_opt(state.current_ref()),
        rebuilt_buffer,
        state.eyedrop_value(),
        state.fg_opacity_value(),
        state.bg_opacity_value(),
    )
    .expect("persisted session must validate");
    assert_eq!(rebuilt.canvas_ref().cells(), state.canvas_ref().cells());
    assert_eq!(rebuilt.tool_index_value(), 2);
    match rebuilt.current_ref() {
        Some(DrawingEvent::Line(l)) => {
            let (s, e) = l.parts();
            assert_eq!((s.x, s.y), (5, 5));
            assert_eq!((e.x, e.y), (5, 5));
        }
        _ => panic!("expected the in-progress line to survive"),
    }
}

#[test]
fn from_parts_rejects_a_bad_tool_index() {
    let buffer = UndoBuffer::new(Raster::new(4, 4));
    let r = DrawingState::from_parts(
        PerPalette { ch: None, fg: None, bg: None },
        Tool::all(),
        17,
        None,
        buffer,
        None,
        255,
        255,
    );
    assert!(r.is_none());
}

#[test]
fn pencil_from_parts_validates() {
    let good = PencilEvent::from_parts(
        vec![(Coord::new(0, 0), 2), (Coord::new(1, 0), 1)],
        Coord::new(1, 0),
    );
    assert!(good.is_some());
    let zero_count = PencilEvent::from_parts(vec![(Coord::new(0, 0), 0)], Coord::new(0, 0));
    assert!(zero_count.is_none());
    let duplicate = PencilEvent::from_parts(
        vec![(Coord::new(0, 0), 1), (Coord::new(0, 0), 1)],
        Coord::new(0, 0),
    );
    assert!(duplicate.is_none());
}

#[test]
fn raster_from_cells_validates_the_dimensions() {
    let cells = vec![RenderCell::blank(); 6];
    assert!(Raster::from_cells(3, 2, cells.clone()).is_some());
    assert!(Raster::from_cells(4, 2, cells).is_none());
}

fn clone_edits(
    edits: &Vec<text_paint::events::DrawingEventWithRenderCell>,
) -> Vec<text_paint::events::DrawingEventWithRenderCell> {
    edits
        .iter()
        .map(|e| {
            text_paint::events::DrawingEventWithRenderCell::new(
                clone_event(e.event_ref()),
                e.cell_value(),
            )
        })
        .collect()
}

fn clone_event_opt(event: &Option<DrawingEvent>) -> Option<DrawingEvent> {
    event.as_ref().map(clone_event)
}

fn clone_event(event: &DrawingEvent) -> DrawingEvent {
    match event {
        DrawingEvent::Pencil(p) => {
            let (coords, last) = p.parts();
            DrawingEvent::Pencil(
                PencilEvent::from_parts(coords.clone(), last).expect("pencil parts are valid"),
            )
        }
        DrawingEvent::Fill(f) => {
            DrawingEvent::Fill(text_paint::events::FillEvent::from_parts(f.parts()))
        }
        DrawingEvent::Line(l) => {
            let (s, e) = l.parts();
            DrawingEvent::Line(
                text_paint::events::LineEvent::from_parts(s, e).expect("line parts are valid"),
            )
        }
        DrawingEvent::Erase(er) => {
            let (coords, last) = er.parts();
            DrawingEvent::Erase(
                text_paint::events::EraseEvent::from_parts(coords.clone(), last)
                    .expect("erase parts are valid"),
            )
        }
    }
}
