use text_paint::cell::{RenderCell, Style};
use text_paint::colour::Rgba32;
use text_paint::coords::Coord;
use text_paint::events::{
    DrawingEvent, DrawingEventWithRenderCell, EraseEvent, FillEvent, LineEvent, PencilEvent,
};
use text_paint::raster::Raster;
use text_paint::undo::UndoBuffer;

fn solid_bg(r: u8, g: u8, b: u8) -> RenderCell {
    RenderCell {
        character: None,
        style: Style {
            foreground: None,
            background: Some(Rgba32 { r, g, b, a: 255 }),
            bold: None,
            underline: None,
        },
    }
}

fn translucent_bg(r: u8, g: u8, b: u8, a: u8) -> RenderCell {
    RenderCell {
        character: None,
        style: Style {
            foreground: None,
            background: Some(Rgba32 { r, g, b, a }),
            bold: None,
            underline: None,
        },
    }
}

fn at(raster: &Raster, x: i32, y: i32) -> RenderCell {
    raster.get(Coord::new(x, y)).expect("coordinate out of bounds")
}

#[test]
fn line_on_blank_raster_paints_exactly_four_cells() {
    let mut raster = Raster::new(10, 10);
    let mut line = LineEvent::mouse_press(Coord::new(0, 0));
    line.mouse_move(Coord::new(3, 0));
    let red = solid_bg(255, 0, 0);
    line.commit(red, &mut raster);
    for x in 0..4 {
        assert_eq!(at(&raster, x, 0), red);
    }
    for y in 0..10 {
        for x in 0..10 {
            if !(y == 0 && x < 4) {
                assert_eq!(at(&raster, x, y), RenderCell::blank());
            }
        }
    }
}

#[test]
fn fill_floods_a_blank_raster_entirely_and_again() {
    let mut raster = Raster::new(5, 5);
    let blue = solid_bg(0, 0, 255);
    let fill = FillEvent::mouse_press(Coord::new(2, 2));
    fill.commit(blue, &mut raster);
    for y in 0..5 {
        for x in 0..5 {
            assert_eq!(at(&raster, x, y), blue);
        }
    }
    let green = solid_bg(0, 255, 0);
    let fill2 = FillEvent::mouse_press(Coord::new(4, 0));
    fill2.commit(green, &mut raster);
    // Composing green over a glyphless blue cell turns the background green;
    // the old background becomes the foreground blend base and passes
    // through, since the incoming cell has no foreground of its own.
    let green_over_blue = RenderCell {
        character: None,
        style: Style {
            foreground: Some(Rgba32 { r: 0, g: 0, b: 255, a: 255 }),
            background: Some(Rgba32 { r: 0, g: 255, b: 0, a: 255 }),
            bold: None,
            underline: None,
        },
    };
    for y in 0..5 {
        for x in 0..5 {
            assert_eq!(at(&raster, x, y), green_over_blue);
        }
    }
}

#[test]
fn fill_stops_at_a_wall_of_different_cells() {
    let mut raster = Raster::new(5, 3);
    // Paint a vertical opaque wall at x == 2.
    let wall = solid_bg(9, 9, 9);
    for y in 0..3 {
        raster.set_coord(Coord::new(2, y), wall);
    }
    let blue = solid_bg(0, 0, 255);
    let fill = FillEvent::mouse_press(Coord::new(0, 0));
    fill.commit(blue, &mut raster);
    for y in 0..3 {
        for x in 0..2 {
            assert_eq!(at(&raster, x, y), blue, "left side must be filled");
        }
        assert_eq!(at(&raster, 2, y), wall, "the wall must stand");
        for x in 3..5 {
            assert_eq!(
                at(&raster, x, y),
                RenderCell::blank(),
                "right side must be untouched"
            );
        }
    }
}

#[test]
fn flood_fill_region_contains_seed_and_equal_neighbors_only() {
    let mut raster = Raster::new(4, 1);
    raster.set_coord(Coord::new(2, 0), solid_bg(1, 2, 3));
    let region = raster.flood_fill(Coord::new(0, 0));
    let mut coords: Vec<(i32, i32)> = region.iter().map(|c| (c.x, c.y)).collect();
    coords.sort();
    assert_eq!(coords, vec![(0, 0), (1, 0)]);
}

#[test]
fn erase_after_paint_restores_the_exact_default_cell() {
    let mut raster = Raster::new(3, 3);
    let red = solid_bg(255, 0, 0);
    let mut pencil = PencilEvent::mouse_press(Coord::new(1, 1));
    pencil.mouse_move(Coord::new(1, 1));
    pencil.commit(red, &mut raster);
    assert_eq!(at(&raster, 1, 1), red);
    let erase = EraseEvent::mouse_press(Coord::new(1, 1));
    erase.commit(&mut raster);
    assert_eq!(at(&raster, 1, 1), RenderCell::blank());
}

#[test]
fn pencil_point_stroke_paints_once() {
    let mut raster = Raster::new(3, 3);
    let red = translucent_bg(255, 0, 0, 127);
    let pencil = PencilEvent::mouse_press(Coord::new(0, 0));
    pencil.commit(red, &mut raster);
    // One translucent pass over a transparent cell passes the color through.
    assert_eq!(at(&raster, 0, 0), red);
}

#[test]
fn pencil_revisiting_a_cell_builds_up_ink() {
    let mut raster = Raster::new(3, 1);
    let red = translucent_bg(255, 0, 0, 127);
    let mut pencil = PencilEvent::mouse_press(Coord::new(0, 0));
    pencil.mouse_move(Coord::new(1, 0));
    pencil.mouse_move(Coord::new(0, 0));
    pencil.commit(red, &mut raster);
    // (0,0) was visited twice: red over red deepens the alpha
    // (alpha_out = 127 + (127 * 128) / 255 = 190, red channel 255), and the
    // first pass's background becomes the second pass's foreground blend
    // base, so it shows through as the foreground.
    let double_red = RenderCell {
        character: None,
        style: Style {
            foreground: Some(Rgba32 { r: 255, g: 0, b: 0, a: 127 }),
            background: Some(Rgba32 { r: 255, g: 0, b: 0, a: 190 }),
            bold: None,
            underline: None,
        },
    };
    assert_eq!(at(&raster, 0, 0), double_red, "two passes must composite twice");
    assert_eq!(at(&raster, 1, 0), red, "one pass composites once");
}

#[test]
fn compositing_blends_exactly_as_the_colour_crate_does() {
    let bottom = solid_bg(0, 0, 0);
    let top = translucent_bg(255, 0, 0, 127);
    let stacked = Raster::stack_render_cells(bottom, top);
    assert_eq!(
        stacked.style.background,
        Some(Rgba32 { r: 127, g: 0, b: 0, a: 255 })
    );
}

#[test]
fn composing_keeps_top_character_and_emphasis() {
    let bottom = RenderCell {
        character: Some('a'),
        style: Style {
            foreground: Some(Rgba32 { r: 1, g: 2, b: 3, a: 255 }),
            background: None,
            bold: Some(true),
            underline: Some(true),
        },
    };
    let top = RenderCell {
        character: Some('b'),
        style: Style {
            foreground: None,
            background: None,
            bold: None,
            underline: Some(false),
        },
    };
    let stacked = Raster::stack_render_cells(bottom, top);
    assert_eq!(stacked.character, Some('b'));
    assert_eq!(stacked.style.bold, Some(true));
    assert_eq!(stacked.style.underline, Some(false));
    assert_eq!(
        stacked.style.foreground,
        Some(Rgba32 { r: 1, g: 2, b: 3, a: 255 })
    );
}

#[test]
fn glyphless_bottom_blends_foreground_against_its_background() {
    // The bottom cell has no character: its background, not its foreground,
    // is the blend base for an incoming foreground.
    let bottom = RenderCell {
        character: None,
        style: Style {
            foreground: Some(Rgba32 { r: 9, g: 9, b: 9, a: 255 }),
            background: Some(Rgba32 { r: 0, g: 0, b: 100, a: 255 }),
            bold: None,
            underline: None,
        },
    };
    let top = RenderCell {
        character: Some('x'),
        style: Style {
            foreground: Some(Rgba32 { r: 200, g: 0, b: 0, a: 0 }),
            background: None,
            bold: None,
            underline: None,
        },
    };
    let stacked = Raster::stack_render_cells(bottom, top);
    // A fully transparent foreground over the bottom background leaves it.
    assert_eq!(
        stacked.style.foreground,
        Some(Rgba32 { r: 0, g: 0, b: 100, a: 255 })
    );
}

fn pencil_edit_at(x: i32, y: i32, cell: RenderCell) -> DrawingEventWithRenderCell {
    DrawingEventWithRenderCell::new(
        DrawingEvent::pencil(Coord::new(x, y)),
        cell,
    )
}

#[test]
fn undo_removes_only_the_last_edit_across_tools() {
    let initial = Raster::new(5, 5);
    let mut buffer = UndoBuffer::new(initial.clone());
    let mut raster = initial.clone();

    let red = solid_bg(255, 0, 0);
    let pencil_edit = pencil_edit_at(0, 0, red);
    raster.commit_event(&pencil_edit);
    buffer.commit_event(pencil_edit);

    let blue = solid_bg(0, 0, 255);
    let fill_edit = DrawingEventWithRenderCell::new(
        DrawingEvent::flood_fill(Coord::new(4, 4)),
        blue,
    );
    raster.commit_event(&fill_edit);
    buffer.commit_event(fill_edit);

    let after_undo = buffer.undo();
    assert_eq!(at(&after_undo, 0, 0), red, "pencil edit must survive");
    assert_eq!(
        at(&after_undo, 4, 4),
        RenderCell::blank(),
        "fill edit must be gone"
    );

    let after_second_undo = buffer.undo();
    assert_eq!(
        after_second_undo.cells(),
        initial.cells(),
        "a second undo returns to the initial raster"
    );
}

#[test]
fn undo_then_redo_reproduces_the_raster() {
    let initial = Raster::new(4, 4);
    let mut buffer = UndoBuffer::new(initial.clone());
    let red = solid_bg(255, 0, 0);
    let edit = pencil_edit_at(1, 1, red);
    buffer.commit_event(edit);
    let before = buffer.current();
    let _ = buffer.undo();
    let after_redo = buffer.redo();
    assert_eq!(after_redo.cells(), before.cells());
}

#[test]
fn undo_on_empty_history_is_idempotent() {
    let initial = Raster::new(4, 4);
    let mut buffer = UndoBuffer::new(initial.clone());
    let first = buffer.undo();
    let second = buffer.undo();
    assert_eq!(first.cells(), initial.cells());
    assert_eq!(second.cells(), initial.cells());
}

#[test]
fn redo_on_empty_redo_stack_is_idempotent() {
    let initial = Raster::new(4, 4);
    let mut buffer = UndoBuffer::new(initial.clone());
    let red = solid_bg(255, 0, 0);
    buffer.commit_event(pencil_edit_at(0, 0, red));
    let first = buffer.redo();
    let second = buffer.redo();
    assert_eq!(first.cells(), second.cells());
    assert_eq!(at(&first, 0, 0), red);
}

#[test]
fn commit_clears_the_redo_stack() {
    let initial = Raster::new(4, 4);
    let mut buffer = UndoBuffer::new(initial.clone());
    let red = solid_bg(255, 0, 0);
    let blue = solid_bg(0, 0, 255);
    buffer.commit_event(pencil_edit_at(0, 0, red));
    let _ = buffer.undo();
    // The redo stack is non-empty now; a fresh commit forfeits it.
    buffer.commit_event(pencil_edit_at(1, 1, blue));
    let after_redo = buffer.redo();
    assert_eq!(
        at(&after_redo, 0, 0),
        RenderCell::blank(),
        "the undone edit must not come back"
    );
    assert_eq!(at(&after_redo, 1, 1), blue);
}

#[test]
fn replay_equals_incremental_application() {
    let initial = Raster::new(6, 6);
    let mut buffer = UndoBuffer::new(initial.clone());
    let mut incremental = initial.clone();
    let red = solid_bg(255, 0, 0);
    let blue = translucent_bg(0, 0, 255, 100);

    let mut line = LineEvent::mouse_press(Coord::new(0, 0));
    line.mouse_move(Coord::new(5, 5));
    let edits = vec![
        DrawingEventWithRenderCell::new(DrawingEvent::Line(line), red),
        pencil_edit_at(2, 2, blue),
        DrawingEventWithRenderCell::new(DrawingEvent::flood_fill(Coord::new(5, 0)), blue),
    ];
    for edit in edits {
        incremental.commit_event(&edit);
        buffer.commit_event(edit);
    }
    let replayed = buffer.current();
    assert_eq!(replayed.cells(), incremental.cells());
}

#[test]
fn out_of_bounds_writes_are_ignored() {
    let mut raster = Raster::new(2, 2);
    let red = solid_bg(255, 0, 0);
    raster.set_coord(Coord::new(5, 5), red);
    raster.set_coord(Coord::new(-1, 0), red);
    raster.clear_coord(Coord::new(17, -3));
    for y in 0..2 {
        for x in 0..2 {
            assert_eq!(at(&raster, x, y), RenderCell::blank());
        }
    }
    assert!(raster.get(Coord::new(2, 0)).is_none());
}

#[test]
fn line_event_tracks_only_the_endpoint() {
    let mut line = LineEvent::mouse_press(Coord::new(1, 1));
    line.mouse_move(Coord::new(4, 1));
    line.mouse_move(Coord::new(2, 3));
    let (start, end) = line.parts();
    assert_eq!((start.x, start.y), (1, 1));
    assert_eq!((end.x, end.y), (2, 3));
}

#[test]
fn erase_records_the_dragged_path() {
    let mut erase = EraseEvent::mouse_press(Coord::new(0, 0));
    erase.mouse_move(Coord::new(2, 0));
    let (coords, last) = erase.parts();
    let mut seen: Vec<(i32, i32)> = coords.iter().map(|c| (c.x, c.y)).collect();
    seen.sort();
    assert_eq!(seen, vec![(0, 0), (1, 0), (2, 0)]);
    assert_eq!((last.x, last.y), (2, 0));
}

#[test]
fn erase_preview_shows_the_opaque_marker() {
    let erase = EraseEvent::mouse_press(Coord::new(1, 1));
    let pairs = erase.preview();
    assert_eq!(pairs.len(), 1);
    let (c, cell) = pairs[0];
    assert_eq!((c.x, c.y), (1, 1));
    assert_eq!(cell.character, Some('\u{2588}'));
    assert_eq!(
        cell.style.foreground,
        Some(Rgba32 { r: 0, g: 0, b: 0, a: 255 })
    );
}

#[test]
fn diagonal_line_paints_the_diagonal() {
    let mut raster = Raster::new(4, 4);
    let mut line = LineEvent::mouse_press(Coord::new(0, 0));
    line.mouse_move(Coord::new(3, 3));
    let red = solid_bg(255, 0, 0);
    line.commit(red, &mut raster);
    for i in 0..4 {
        assert_eq!(at(&raster, i, i), red);
    }
    assert_eq!(at(&raster, 1, 0), RenderCell::blank());
    assert_eq!(at(&raster, 0, 1), RenderCell::blank());
}

#[test]
fn single_point_line_paints_one_cell() {
    let mut raster = Raster::new(3, 3);
    let line = LineEvent::mouse_press(Coord::new(1, 1));
    let red = solid_bg(255, 0, 0);
    line.commit(red, &mut raster);
    assert_eq!(at(&raster, 1, 1), red);
    assert_eq!(at(&raster, 0, 1), RenderCell::blank());
    assert_eq!(at(&raster, 2, 1), RenderCell::blank());
}
