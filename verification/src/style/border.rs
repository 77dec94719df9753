//! Border configuration for flex containers.

use vstd::prelude::*;
use crate::style::colors::Color;
use crate::style::colors::spec_color;

verus! {

/// The border of a flex container: a stroke width and a color.
#[derive(Debug, Clone, Copy, PartialEq, Eq, Structural)]
pub struct Border {
    /// The stroke width of the border, in layout units.
    pub width: i64,
    /// The color of the border.
    pub color: Color,
}

impl Default for Border {
    /// No border: width 0, drawn in the default foreground color.
    fn default() -> (r: Self)
        ensures
            r.width == 0,
            r.color == spec_color(0, 0, 0, 255),
    {
        Border { width: 0, color: Color::default() }
    }
}

impl Border {
    /// Alias for `Border::default()`.
    pub fn new() -> (r: Self)
        ensures
            r.width == 0,
            r.color == spec_color(0, 0, 0, 255),
    {
        Border::default()
    }

    /// Returns this border with the given stroke width.
    pub fn width(self, width: i64) -> (r: Self)
        ensures
            r.width == width,
            r.color == self.color,
    {
        Border { width, ..self }
    }

    /// Returns this border with the given color.
    pub fn color(self, color: Color) -> (r: Self)
        ensures
            r.width == self.width,
            r.color == color,
    {
        Border { color, ..self }
    }
}

} // verus!
