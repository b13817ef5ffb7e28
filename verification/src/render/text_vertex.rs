use vstd::prelude::*;

use crate::render::{ColorBits, ONE_BITS, ZERO_BITS};

verus! {

/// A vertex of a textured quad: a position in pixels, texture coordinates and a
/// colour, the last two as single-precision bit patterns.
#[derive(Clone, Copy, Debug, PartialEq, Eq, Structural)]
pub struct TextVertex {
    pub x: i64,
    pub y: i64,
    pub u_bits: u32,
    pub v_bits: u32,
    pub color: ColorBits,
}

/// Opaque blue.
pub fn color_blue() -> (c: ColorBits)
    ensures
        c == (ColorBits { r: ZERO_BITS, g: ZERO_BITS, b: ONE_BITS, a: ONE_BITS }),
{
    ColorBits { r: ZERO_BITS, g: ZERO_BITS, b: ONE_BITS, a: ONE_BITS }
}

/// Opaque white.
pub fn color_white() -> (c: ColorBits)
    ensures
        c == (ColorBits { r: ONE_BITS, g: ONE_BITS, b: ONE_BITS, a: ONE_BITS }),
{
    ColorBits { r: ONE_BITS, g: ONE_BITS, b: ONE_BITS, a: ONE_BITS }
}

/// Opaque black.
pub fn color_black() -> (c: ColorBits)
    ensures
        c == (ColorBits { r: ZERO_BITS, g: ZERO_BITS, b: ZERO_BITS, a: ONE_BITS }),
{
    ColorBits { r: ZERO_BITS, g: ZERO_BITS, b: ZERO_BITS, a: ONE_BITS }
}

/// Opaque red.
pub fn color_red() -> (c: ColorBits)
    ensures
        c == (ColorBits { r: ONE_BITS, g: ZERO_BITS, b: ZERO_BITS, a: ONE_BITS }),
{
    ColorBits { r: ONE_BITS, g: ZERO_BITS, b: ZERO_BITS, a: ONE_BITS }
}

/// Opaque green.
pub open spec fn green() -> ColorBits {
    ColorBits { r: ZERO_BITS, g: ONE_BITS, b: ZERO_BITS, a: ONE_BITS }
}

/// Opaque green.
pub fn color_green() -> (c: ColorBits)
    ensures
        c == green(),
{
    ColorBits { r: ZERO_BITS, g: ONE_BITS, b: ZERO_BITS, a: ONE_BITS }
}

} // verus!
