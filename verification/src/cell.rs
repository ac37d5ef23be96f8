//! Styled cells: one grid position's visual content.
//!
//! A `None` field means "transparent/unset", not a default color. Structural
//! equality over all fields is what flood fill uses to test region membership.

use vstd::prelude::*;
use crate::colour::{alpha_over, blend_rgba, Rgba32};

verus! {

/// Emphasis and colors of one cell, without the character.
#[derive(Clone, Copy, Debug, PartialEq, Eq, Structural)]
pub struct Style {
    pub foreground: Option<Rgba32>,
    pub background: Option<Rgba32>,
    pub bold: Option<bool>,
    pub underline: Option<bool>,
}

impl Style {
    /// The fully-unset style: no color, no emphasis.
    pub fn clear() -> (s: Self)
        ensures
            s == Self::clear_spec(),
    {
        Style { foreground: None, background: None, bold: None, underline: None }
    }

    pub open spec fn clear_spec() -> Self {
        Style { foreground: None, background: None, bold: None, underline: None }
    }
}

/// One grid position's visual content: an optional character and its style.
#[derive(Clone, Copy, Debug, PartialEq, Eq, Structural)]
pub struct RenderCell {
    pub character: Option<char>,
    pub style: Style,
}

impl RenderCell {
    /// The fully-transparent default cell: no character, no color.
    pub fn blank() -> (c: Self)
        ensures
            c == Self::blank_spec(),
    {
        RenderCell { character: None, style: Style::clear() }
    }

    pub open spec fn blank_spec() -> Self {
        RenderCell { character: None, style: Style::clear_spec() }
    }
}

/// Two optional colors combined channelwise: if both are present, `above`
/// composited over `below`; if only one is present it passes through; if
/// neither, the result stays absent.
pub open spec fn blend_opt(above: Option<Rgba32>, below: Option<Rgba32>) -> Option<Rgba32> {
    match (above, below) {
        (Option::None, Option::None) => Option::None,
        (Option::Some(x), Option::None) => Option::Some(x),
        (Option::None, Option::Some(x)) => Option::Some(x),
        (Option::Some(a), Option::Some(b)) => Option::Some(alpha_over(a, b)),
    }
}

/// `top` painted over `bottom`:
/// - the character is `top`'s if present, else `bottom`'s;
/// - background channels are alpha-composited;
/// - foreground channels are alpha-composited, except that when `bottom` has
///   no character its background (not its foreground) is the blend base, so
///   that a glyphless cell does not contribute a meaningless foreground;
/// - bold and underline are `top`'s value if present, else `bottom`'s.
pub open spec fn compose_cell(bottom: RenderCell, top: RenderCell) -> RenderCell {
    let bottom_fg_base = if bottom.character is None {
        bottom.style.background
    } else {
        bottom.style.foreground
    };
    RenderCell {
        character: if top.character is Some { top.character } else { bottom.character },
        style: Style {
            foreground: blend_opt(top.style.foreground, bottom_fg_base),
            background: blend_opt(top.style.background, bottom.style.background),
            bold: if top.style.bold is Some { top.style.bold } else { bottom.style.bold },
            underline: if top.style.underline is Some {
                top.style.underline
            } else {
                bottom.style.underline
            },
        },
    }
}

/// `top` painted over `bottom` `n` times in sequence. Repeated
/// self-composition of a translucent color builds up "ink": the result of
/// painting `n` times is in general not the result of painting once.
pub open spec fn compose_n(bottom: RenderCell, top: RenderCell, n: nat) -> RenderCell
    decreases n,
{
    if n == 0 {
        bottom
    } else {
        compose_cell(compose_n(bottom, top, (n - 1) as nat), top)
    }
}

/// Painting `m` times and then `n` more times is painting `m + n` times.
pub proof fn lemma_compose_n_add(bottom: RenderCell, top: RenderCell, m: nat, n: nat)
    ensures
        compose_n(compose_n(bottom, top, m), top, n) == compose_n(bottom, top, m + n),
    decreases n,
{
    if n > 0 {
        lemma_compose_n_add(bottom, top, m, (n - 1) as nat);
    }
}

/// Executable channel blend; matches `blend_opt` exactly.
pub(crate) fn blend_opt_exec(above: Option<Rgba32>, below: Option<Rgba32>) -> (r: Option<Rgba32>)
    ensures
        r == blend_opt(above, below),
{
    match (above, below) {
        (None, None) => None,
        (Some(x), None) => Some(x),
        (None, Some(x)) => Some(x),
        (Some(a), Some(b)) => {
            if a.a == 0 && b.a == 0 {
                // Both colors fully transparent: `alpha_over` leaves the upper
                // color unchanged rather than dividing by a zero output alpha.
                Some(a)
            } else {
                Some(blend_rgba(a, b))
            }
        },
    }
}

} // verus!
