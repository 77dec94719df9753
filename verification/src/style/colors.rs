//! An RGBA color type and a small palette of named colors.

use vstd::prelude::*;

verus! {

/// An RGBA color with 8 bits per channel.
#[derive(Debug, Clone, Copy, PartialEq, Eq, Structural)]
pub struct Color {
    pub(crate) r: u8,
    pub(crate) g: u8,
    pub(crate) b: u8,
    pub(crate) a: u8,
}

/// The color with the given channels.
pub open(crate) spec fn spec_color(r: u8, g: u8, b: u8, a: u8) -> Color {
    Color { r, g, b, a }
}

/// Two colors are equal exactly when their channels are equal, and
/// `spec_color` yields the channels it was given.
pub proof fn lemma_color_channels(c1: Color, c2: Color, r: u8, g: u8, b: u8, a: u8)
    ensures
        (c1 == c2) <==> (c1.spec_rgba() == c2.spec_rgba()),
        spec_color(r, g, b, a).spec_rgba() == (r, g, b, a),
{
}

impl Color {
    /// The red, green, blue and alpha channels of this color.
    pub open(crate) spec fn spec_rgba(self) -> (u8, u8, u8, u8) {
        (self.r, self.g, self.b, self.a)
    }

    /// The red, green, blue and alpha channels of this color.
    pub fn rgba(&self) -> (t: (u8, u8, u8, u8))
        ensures
            t == self.spec_rgba(),
    {
        (self.r, self.g, self.b, self.a)
    }
}

impl Default for Color {
    /// Opaque black.
    fn default() -> (r: Self)
        ensures
            r == spec_color(0, 0, 0, 255),
    {
        Color { r: 0, g: 0, b: 0, a: 255 }
    }
}

/// The channels packed in a `u32` as `0xRRGGBBAA`, unpacked.
pub open(crate) spec fn spec_color_from_u32(value: u32) -> Color {
    Color {
        r: ((value >> 24) & 0xFF) as u8,
        g: ((value >> 16) & 0xFF) as u8,
        b: ((value >> 8) & 0xFF) as u8,
        a: (value & 0xFF) as u8,
    }
}

impl vstd::std_specs::convert::FromSpecImpl<u32> for Color {
    open spec fn obeys_from_spec() -> bool {
        true
    }

    open spec fn from_spec(value: u32) -> Color {
        spec_color_from_u32(value)
    }
}

impl From<u32> for Color {
    /// Unpacks `0xRRGGBBAA`.
    fn from(value: u32) -> (r: Self) {
        proof {
            assert(((value >> 24) & 0xFF) <= 0xFF) by (bit_vector);
            assert(((value >> 16) & 0xFF) <= 0xFF) by (bit_vector);
            assert(((value >> 8) & 0xFF) <= 0xFF) by (bit_vector);
            assert((value & 0xFF) <= 0xFF) by (bit_vector);
        }
        Color {
            r: ((value >> 24) & 0xFF) as u8,
            g: ((value >> 16) & 0xFF) as u8,
            b: ((value >> 8) & 0xFF) as u8,
            a: (value & 0xFF) as u8,
        }
    }
}

impl vstd::std_specs::convert::FromSpecImpl<(u8, u8, u8)> for Color {
    open spec fn obeys_from_spec() -> bool {
        true
    }

    open spec fn from_spec(value: (u8, u8, u8)) -> Color {
        spec_color(value.0, value.1, value.2, 255)
    }
}

impl From<(u8, u8, u8)> for Color {
    /// An opaque color from red, green and blue channels.
    fn from(value: (u8, u8, u8)) -> (r: Self) {
        Color { r: value.0, g: value.1, b: value.2, a: 255 }
    }
}

impl vstd::std_specs::convert::FromSpecImpl<(u8, u8, u8, u8)> for Color {
    open spec fn obeys_from_spec() -> bool {
        true
    }

    open spec fn from_spec(value: (u8, u8, u8, u8)) -> Color {
        spec_color(value.0, value.1, value.2, value.3)
    }
}

impl From<(u8, u8, u8, u8)> for Color {
    /// A color from red, green, blue and alpha channels.
    fn from(value: (u8, u8, u8, u8)) -> (r: Self) {
        Color { r: value.0, g: value.1, b: value.2, a: value.3 }
    }
}

/// A small palette of named colors.
#[derive(Debug, Clone, Copy, PartialEq, Eq, Structural)]
pub enum Colors {
    White,
    Black,
    Transparent,
    Red,
    Green,
    Blue,
}

/// The channel quadruple of each named color.
pub open spec fn spec_palette(color: Colors) -> (u8, u8, u8, u8) {
    match color {
        Colors::White => (255u8, 255u8, 255u8, 255u8),
        Colors::Black => (0u8, 0u8, 0u8, 255u8),
        Colors::Transparent => (0u8, 0u8, 0u8, 0u8),
        Colors::Red => (255u8, 0u8, 0u8, 255u8),
        Colors::Green => (0u8, 255u8, 0u8, 255u8),
        Colors::Blue => (0u8, 0u8, 255u8, 255u8),
    }
}

impl vstd::std_specs::convert::FromSpecImpl<Colors> for (u8, u8, u8, u8) {
    open spec fn obeys_from_spec() -> bool {
        true
    }

    open spec fn from_spec(color: Colors) -> (u8, u8, u8, u8) {
        spec_palette(color)
    }
}

impl From<Colors> for (u8, u8, u8, u8) {
    /// The channel quadruple of the named color.
    fn from(color: Colors) -> (r: Self) {
        match color {
            Colors::White => (255, 255, 255, 255),
            Colors::Black => (0, 0, 0, 255),
            Colors::Transparent => (0, 0, 0, 0),
            Colors::Red => (255, 0, 0, 255),
            Colors::Green => (0, 255, 0, 255),
            Colors::Blue => (0, 0, 255, 255),
        }
    }
}

impl vstd::std_specs::convert::FromSpecImpl<Colors> for Color {
    open spec fn obeys_from_spec() -> bool {
        true
    }

    open spec fn from_spec(color: Colors) -> Color {
        spec_color(
            spec_palette(color).0,
            spec_palette(color).1,
            spec_palette(color).2,
            spec_palette(color).3,
        )
    }
}

impl From<Colors> for Color {
    /// The named color as an RGBA color.
    fn from(color: Colors) -> (r: Self) {
        let (red, green, blue, alpha) = <(u8, u8, u8, u8)>::from(color);
        Color { r: red, g: green, b: blue, a: alpha }
    }
}

} // verus!
