//! The paint palette: the characters and colors a stroke's style is chosen
//! from, as read from a palette file.
//!
//! The file itself is read and decoded by the surrounding layer; this module
//! validates and parses the plain string rows it extracts.

use vstd::prelude::*;
use crate::colour::Rgb24;
use crate::parse_colour::{hex_rgb24_of, parse_hex_rgb24};

verus! {

/// The palette's three rows: foreground colors, background colors, and
/// characters. Each row is non-empty once parsed.
#[derive(Debug)]
pub struct Palette {
    pub fg: Vec<Rgb24>,
    pub bg: Vec<Rgb24>,
    pub ch: Vec<char>,
}

impl Palette {
    pub open spec fn wf(self) -> bool {
        self.fg@.len() > 0 && self.bg@.len() > 0 && self.ch@.len() > 0
    }
}

/// Why a palette was rejected.
#[derive(Clone, Copy, Debug, PartialEq, Eq, Structural)]
pub enum PaletteError {
    /// A foreground entry is not a `#RRGGBB` color.
    BadFg,
    /// A background entry is not a `#RRGGBB` color.
    BadBg,
    /// A character entry is not exactly one character.
    BadCh,
    /// The foreground row has no entries.
    EmptyFg,
    /// The background row has no entries.
    EmptyBg,
    /// The character row has no entries.
    EmptyCh,
}

/// Every entry denotes a color.
pub open spec fn colours_ok(rows: Seq<String>) -> bool {
    forall|i: int| 0 <= i < rows.len() ==> hex_rgb24_of((#[trigger] rows[i])@) is Some
}

/// Every entry is a single character.
pub open spec fn chars_ok(rows: Seq<String>) -> bool {
    forall|i: int| 0 <= i < rows.len() ==> (#[trigger] rows[i])@.len() == 1
}

/// Parse one row of colors, in order.
fn parse_colour_row(rows: &Vec<String>) -> (r: Result<Vec<Rgb24>, ()>)
    ensures
        r is Ok <==> colours_ok(rows@),
        r is Ok ==> {
            &&& r->Ok_0@.len() == rows@.len()
            &&& forall|i: int|
                0 <= i < rows@.len() ==> Some(#[trigger] r->Ok_0@[i]) == hex_rgb24_of(rows@[i]@)
        },
{
    let mut out: Vec<Rgb24> = Vec::new();
    let mut i: usize = 0;
    while i < rows.len()
        invariant
            i <= rows@.len(),
            out@.len() == i,
            forall|k: int| 0 <= k < i ==> hex_rgb24_of((#[trigger] rows@[k])@) is Some,
            forall|k: int| 0 <= k < i ==> Some(#[trigger] out@[k]) == hex_rgb24_of(rows@[k]@),
        decreases rows@.len() - i,
    {
        match parse_hex_rgb24(rows[i].as_str()) {
            Ok(c) => {
                out.push(c);
            },
            Err(_) => {
                proof {
                    assert(hex_rgb24_of(rows@[i as int]@) is None);
                }
                return Err(());
            },
        }
        i = i + 1;
    }
    Ok(out)
}

/// Parse one row of single-character entries, in order.
fn parse_char_row(rows: &Vec<String>) -> (r: Result<Vec<char>, ()>)
    ensures
        r is Ok <==> chars_ok(rows@),
        r is Ok ==> {
            &&& r->Ok_0@.len() == rows@.len()
            &&& forall|i: int| 0 <= i < rows@.len() ==> #[trigger] r->Ok_0@[i] == rows@[i]@[0]
        },
{
    let mut out: Vec<char> = Vec::new();
    let mut i: usize = 0;
    while i < rows.len()
        invariant
            i <= rows@.len(),
            out@.len() == i,
            forall|k: int| 0 <= k < i ==> (#[trigger] rows@[k])@.len() == 1,
            forall|k: int| 0 <= k < i ==> #[trigger] out@[k] == rows@[k]@[0],
        decreases rows@.len() - i,
    {
        let s = rows[i].as_str();
        if s.unicode_len() != 1 {
            return Err(());
        }
        out.push(s.get_char(0));
        i = i + 1;
    }
    Ok(out)
}

/// Build a palette from its three rows of strings: each foreground and
/// background entry must be a `#RRGGBB` color, each character entry exactly
/// one character, and no row may be empty. Errors are reported in that order:
/// malformed foreground, background, then character entries, then an empty
/// foreground, background, then character row.
pub fn parse_palette(fg: &Vec<String>, bg: &Vec<String>, ch: &Vec<String>) -> (r: Result<
    Palette,
    PaletteError,
>)
    ensures
        r is Ok <==> colours_ok(fg@) && colours_ok(bg@) && chars_ok(ch@) && fg@.len() > 0
            && bg@.len() > 0 && ch@.len() > 0,
        r is Ok ==> {
            &&& r->Ok_0.wf()
            &&& r->Ok_0.fg@.len() == fg@.len()
            &&& r->Ok_0.bg@.len() == bg@.len()
            &&& r->Ok_0.ch@.len() == ch@.len()
            &&& forall|i: int|
                0 <= i < fg@.len() ==> Some(#[trigger] r->Ok_0.fg@[i]) == hex_rgb24_of(fg@[i]@)
            &&& forall|i: int|
                0 <= i < bg@.len() ==> Some(#[trigger] r->Ok_0.bg@[i]) == hex_rgb24_of(bg@[i]@)
            &&& forall|i: int| 0 <= i < ch@.len() ==> #[trigger] r->Ok_0.ch@[i] == ch@[i]@[0]
        },
        r == Err::<Palette, PaletteError>(PaletteError::BadFg) <==> !colours_ok(fg@),
        r == Err::<Palette, PaletteError>(PaletteError::BadBg) <==> colours_ok(fg@) && !colours_ok(
            bg@,
        ),
        r == Err::<Palette, PaletteError>(PaletteError::BadCh) <==> colours_ok(fg@) && colours_ok(
            bg@,
        ) && !chars_ok(ch@),
        r == Err::<Palette, PaletteError>(PaletteError::EmptyFg) <==> colours_ok(fg@)
            && colours_ok(bg@) && chars_ok(ch@) && fg@.len() == 0,
        r == Err::<Palette, PaletteError>(PaletteError::EmptyBg) <==> colours_ok(fg@)
            && colours_ok(bg@) && chars_ok(ch@) && fg@.len() > 0 && bg@.len() == 0,
        r == Err::<Palette, PaletteError>(PaletteError::EmptyCh) <==> colours_ok(fg@)
            && colours_ok(bg@) && chars_ok(ch@) && fg@.len() > 0 && bg@.len() > 0 && ch@.len()
            == 0,
{
    let fg_row = match parse_colour_row(fg) {
        Ok(v) => v,
        Err(_) => {
            return Err(PaletteError::BadFg);
        },
    };
    let bg_row = match parse_colour_row(bg) {
        Ok(v) => v,
        Err(_) => {
            return Err(PaletteError::BadBg);
        },
    };
    let ch_row = match parse_char_row(ch) {
        Ok(v) => v,
        Err(_) => {
            return Err(PaletteError::BadCh);
        },
    };
    if fg_row.len() == 0 {
        return Err(PaletteError::EmptyFg);
    }
    if bg_row.len() == 0 {
        return Err(PaletteError::EmptyBg);
    }
    if ch_row.len() == 0 {
        return Err(PaletteError::EmptyCh);
    }
    Ok(Palette { fg: fg_row, bg: bg_row, ch: ch_row })
}

} // verus!
