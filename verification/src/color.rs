//! An RGBA color value: four 8-bit channels, no identity.

use vstd::prelude::*;

verus! {

/// A color with four 8-bit channels, stored in R, G, B, A order.
#[derive(Clone, Copy, Debug, PartialEq, Eq, Structural)]
pub struct Rgba {
    pub r: u8,
    pub g: u8,
    pub b: u8,
    pub a: u8,
}

/// The `k`-th byte (0 = red, 1 = green, 2 = blue, anything else = alpha)
/// of a color as it is laid out in a framebuffer pixel.
pub open spec fn channel(c: Rgba, k: int) -> u8 {
    if k == 0 {
        c.r
    } else if k == 1 {
        c.g
    } else if k == 2 {
        c.b
    } else {
        c.a
    }
}

impl Rgba {
    /// Builds a color from its four channels.
    pub fn new(r: u8, g: u8, b: u8, a: u8) -> (c: Rgba)
        ensures
            c == (Rgba { r, g, b, a }),
    {
        Rgba { r, g, b, a }
    }
}

} // verus!
