//! Display colors: 8-bit gamma-encoded triples, produced from linear
//! fixed-point color vectors only at the final pixel-write boundary.

use vstd::prelude::*;
use crate::fixed::{fx_mul, mul_fx, FX_ONE};
use crate::vector::Vector;

verus! {

/// An 8-bit display color.
#[derive(Debug, Clone, Copy, PartialEq, Eq, Structural)]
pub struct Color {
    pub red: u8,
    pub green: u8,
    pub blue: u8,
}

/// One linear channel scaled by 255, clamped to [0, 255] and truncated to
/// a whole display level.
pub open spec fn quantize(ch: int) -> int {
    let m = mul_fx(ch, 255 * FX_ONE);
    if m < 0 {
        0
    } else if m >= 255 * FX_ONE {
        255
    } else {
        m / (FX_ONE as int)
    }
}

/// The display color a linear color vector denotes, channel by channel.
pub open spec fn color_of_vector(v: Vector) -> Color {
    Color {
        red: quantize(v.x as int) as u8,
        green: quantize(v.y as int) as u8,
        blue: quantize(v.z as int) as u8,
    }
}

fn quantize_channel(ch: i64) -> (r: u8)
    ensures
        r == quantize(ch as int),
{
    let m: i64 = fx_mul(ch, 255 * FX_ONE);
    if m < 0 {
        0
    } else if m >= 255 * FX_ONE {
        255
    } else {
        ((m as u64) / 1048576) as u8
    }
}

impl Color {
    /// A color from its three channels.
    pub fn new(red: u8, green: u8, blue: u8) -> (r: Color)
        ensures
            r == (Color { red, green, blue }),
    {
        Color { red, green, blue }
    }

    /// The loud magenta used for placeholder materials.
    pub fn debug() -> (r: Color)
        ensures
            r == (Color { red: 255u8, green: 0u8, blue: 255u8 }),
    {
        Color { red: 255, green: 0, blue: 255 }
    }

    /// The display color a linear color vector denotes.
    pub fn from_vector(v: Vector) -> (r: Color)
        ensures
            r == color_of_vector(v),
    {
        Color {
            red: quantize_channel(v.x),
            green: quantize_channel(v.y),
            blue: quantize_channel(v.z),
        }
    }
}

} // verus!
