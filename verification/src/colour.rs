//! Colors with and without an alpha channel, and alpha compositing.
//!
//! `Rgba32` and `Rgb24` hold the same channels as the `rgb_int` crate's types
//! of the same names; the compositing itself is `rgb_int`'s
//! `Rgba32::alpha_composite`, called through a trusted wrapper whose contract
//! restates that function's integer arithmetic exactly (`alpha_over`).

use vstd::prelude::*;

verus! {

/// A color with an alpha channel. `a == 255` is fully opaque, `a == 0` fully
/// transparent.
#[derive(Clone, Copy, Debug, PartialEq, Eq, Structural)]
pub struct Rgba32 {
    pub r: u8,
    pub g: u8,
    pub b: u8,
    pub a: u8,
}

/// A color without an alpha channel, as palette files state them.
#[derive(Clone, Copy, Debug, PartialEq, Eq, Structural)]
pub struct Rgb24 {
    pub r: u8,
    pub g: u8,
    pub b: u8,
}

impl Rgb24 {
    pub fn new(r: u8, g: u8, b: u8) -> (c: Self)
        ensures
            c == (Rgb24 { r, g, b }),
    {
        Rgb24 { r, g, b }
    }

    /// The same channels with the given alpha.
    pub fn to_rgba32(self, a: u8) -> (c: Rgba32)
        ensures
            c == (Rgba32 { r: self.r, g: self.g, b: self.b, a }),
    {
        Rgba32 { r: self.r, g: self.g, b: self.b, a }
    }
}

impl Rgba32 {
    pub fn new(r: u8, g: u8, b: u8, a: u8) -> (c: Self)
        ensures
            c == (Rgba32 { r, g, b, a }),
    {
        Rgba32 { r, g, b, a }
    }
}

/// `(v * m) / 255`: one channel scaled by an alpha-like factor, truncating.
pub open spec fn scale_255(v: int, m: int) -> int {
    (v * m) / 255
}

/// One output channel of `above` composited over `below`.
pub open spec fn over_channel(ca: int, cb: int, aa: int, ar: int, a_out: int) -> int {
    (255 * (scale_255(ca, aa) + scale_255(cb, ar))) / a_out
}

/// `above` composited over `below` (porter-duff "over", in the exact integer
/// arithmetic of `rgb_int`). When both colors are fully transparent the
/// formula's output alpha is zero and its channels are undefined (`rgb_int`
/// divides by zero there); this total version returns `above` unchanged in
/// that case, which is likewise fully transparent.
pub open spec fn alpha_over(above: Rgba32, below: Rgba32) -> Rgba32 {
    if above.a == 0 && below.a == 0 {
        above
    } else {
        let ar = scale_255(below.a as int, 255 - above.a as int);
        let a_out = above.a + ar;
        Rgba32 {
            r: over_channel(above.r as int, below.r as int, above.a as int, ar, a_out) as u8,
            g: over_channel(above.g as int, below.g as int, above.a as int, ar, a_out) as u8,
            b: over_channel(above.b as int, below.b as int, above.a as int, ar, a_out) as u8,
            a: a_out as u8,
        }
    }
}

/// Relies on `rgb_int::Rgba32::alpha_composite`: composites `above` over
/// `below` with the integer arithmetic that `alpha_over` restates. That
/// function divides by the output alpha, which is zero exactly when both
/// inputs have alpha zero, so that input is excluded here.
#[verifier::external_body]
pub(crate) fn blend_rgba(above: Rgba32, below: Rgba32) -> (r: Rgba32)
    requires
        above.a != 0 || below.a != 0,
    ensures
        r == alpha_over(above, below),
{
    let a = rgb_int::Rgba32::new(above.r, above.g, above.b, above.a);
    let b = rgb_int::Rgba32::new(below.r, below.g, below.b, below.a);
    let out = a.alpha_composite(b);
    Rgba32 { r: out.r, g: out.g, b: out.b, a: out.a }
}

} // verus!
