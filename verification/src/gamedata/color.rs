//! Screen colours.

use vstd::prelude::*;

verus! {

/// A colour, each channel in thousandths: `0` is none of the channel, `1000`
/// all of it.
#[derive(Debug, Clone, Copy, PartialEq)]
pub struct Color {
    pub r: i64,
    pub g: i64,
    pub b: i64,
    pub a: i64,
}

impl Default for Color {
    fn default() -> (c: Color)
        ensures
            c == Color::transparent_spec(),
    {
        Color::transparent()
    }
}

impl Color {
    /// The fully transparent colour.
    pub open spec fn transparent_spec() -> Color {
        Color { r: 0, g: 0, b: 0, a: 0 }
    }

    /// Opaque black.
    pub open spec fn black_spec() -> Color {
        Color { r: 0, g: 0, b: 0, a: 1000 }
    }

    /// Every channel of the colour within the fixed-point range.
    pub open spec fn wf(self) -> bool {
        &&& 0 <= self.r <= 1000
        &&& 0 <= self.g <= 1000
        &&& 0 <= self.b <= 1000
        &&& 0 <= self.a <= 1000
    }

    pub fn transparent() -> (c: Color)
        ensures
            c == Color::transparent_spec(),
    {
        Color { r: 0, g: 0, b: 0, a: 0 }
    }

    pub fn black() -> (c: Color)
        ensures
            c == Color::black_spec(),
    {
        Color { r: 0, g: 0, b: 0, a: 1000 }
    }
}

} // verus!
