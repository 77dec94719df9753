//! Styling types for containers and text runs.

pub mod border;
pub mod colors;
pub mod layout;
pub mod padding;
pub mod sizing;

use vstd::prelude::*;
use crate::style::border::Border;
use crate::style::colors::Color;
use crate::style::colors::spec_color;
use crate::style::layout::Direction;
use crate::style::layout::Layout;
use crate::style::padding::Padding;
use crate::style::sizing::BoxSizing;

verus! {

/// Colors that can act as the engine's default foreground and background.
///
/// The engine itself works with [`Color`]; renderer layers may implement this
/// trait for their own color types and convert at the boundary.
pub trait KaolinColor: Sized {
    /// The default color for text and borders.
    fn default_foreground_color() -> Self;

    /// The default background color for flex containers.
    fn default_background_color() -> Self;
}

impl KaolinColor for Color {
    /// Opaque black.
    fn default_foreground_color() -> (r: Self)
        ensures
            r == spec_color(0, 0, 0, 255),
    {
        Color::default()
    }

    /// Opaque black.
    fn default_background_color() -> (r: Self)
        ensures
            r == spec_color(0, 0, 0, 255),
    {
        Color::default()
    }
}

/// Style of a flex container.
#[derive(Clone, Copy)]
pub struct FlexStyle {
    /// The text color inherited by default by all child elements.
    pub color: Option<Color>,
    /// The background color of the container.
    pub background_color: Option<Color>,
    /// The layout configuration for the children of the container.
    pub layout: Layout,
    /// The sizing configuration of the container itself.
    pub sizing: BoxSizing,
    /// The padding around the container's content.
    pub padding: Padding,
    /// The corner radius of the container's rectangle.
    pub corner_radius: i64,
    /// The border of the container's rectangle.
    pub border: Border,
}

impl Default for FlexStyle {
    /// No colors set, default layout, fit sizing, no padding, no border.
    fn default() -> (r: Self)
        ensures
            r.color is None,
            r.background_color is None,
            r.layout.spec_direction() == Direction::LeftToRight,
            r.layout.spec_gap() == 0,
            r.sizing.width.spec_dims() == crate::style::sizing::Sizing::fit_dims(),
            r.sizing.height.spec_dims() == crate::style::sizing::Sizing::fit_dims(),
            r.padding.spec_x() == 0,
            r.padding.spec_y() == 0,
            r.corner_radius == 0,
            r.border.width == 0,
    {
        FlexStyle {
            color: None,
            background_color: None,
            layout: Layout::default(),
            sizing: BoxSizing::default(),
            padding: Padding::default(),
            corner_radius: 0,
            border: Border::default(),
        }
    }
}

impl FlexStyle {
    /// Alias for `FlexStyle::default()`.
    pub fn new() -> (r: Self)
        ensures
            r.color is None,
            r.background_color is None,
            r.layout.spec_direction() == Direction::LeftToRight,
            r.layout.spec_gap() == 0,
            r.sizing.width.spec_dims() == crate::style::sizing::Sizing::fit_dims(),
            r.sizing.height.spec_dims() == crate::style::sizing::Sizing::fit_dims(),
            r.padding.spec_x() == 0,
            r.padding.spec_y() == 0,
            r.corner_radius == 0,
            r.border.width == 0,
    {
        FlexStyle::default()
    }

    /// Returns this style with the inherited text color set.
    pub fn color(self, color: Color) -> (r: Self)
        ensures
            r == (FlexStyle { color: Some(color), ..self }),
    {
        FlexStyle { color: Some(color), ..self }
    }

    /// Returns this style with the background color set.
    pub fn background_color(self, background_color: Color) -> (r: Self)
        ensures
            r == (FlexStyle { background_color: Some(background_color), ..self }),
    {
        FlexStyle { background_color: Some(background_color), ..self }
    }

    /// Returns this style with the given layout configuration.
    pub fn layout(self, layout: Layout) -> (r: Self)
        ensures
            r == (FlexStyle { layout, ..self }),
    {
        FlexStyle { layout, ..self }
    }

    /// Returns this style with the given sizing configuration.
    pub fn sizing(self, sizing: BoxSizing) -> (r: Self)
        ensures
            r == (FlexStyle { sizing, ..self }),
    {
        FlexStyle { sizing, ..self }
    }

    /// Returns this style with the given padding.
    pub fn padding(self, padding: Padding) -> (r: Self)
        ensures
            r == (FlexStyle { padding, ..self }),
    {
        FlexStyle { padding, ..self }
    }

    /// Returns this style with the given corner radius.
    pub fn corner_radius(self, corner_radius: i64) -> (r: Self)
        ensures
            r == (FlexStyle { corner_radius, ..self }),
    {
        FlexStyle { corner_radius, ..self }
    }

    /// Returns this style with the given border.
    pub fn border(self, border: Border) -> (r: Self)
        ensures
            r == (FlexStyle { border, ..self }),
    {
        FlexStyle { border, ..self }
    }

    /// True if children are laid out along the horizontal axis.
    pub open spec fn spec_has_horizontal_layout(self) -> bool {
        self.layout.spec_direction().spec_is_horizontal()
    }

    /// True if children are laid out along the horizontal axis.
    pub fn has_horizontal_layout(&self) -> (r: bool)
        ensures
            r == self.spec_has_horizontal_layout(),
    {
        self.layout.get_direction().is_horizontal()
    }

    /// Orders a `(horizontal, vertical)` pair as `(main, cross)` for this
    /// style's direction.
    pub open spec fn spec_switch_axis(self, pair: (i64, i64)) -> (i64, i64) {
        if self.spec_has_horizontal_layout() {
            pair
        } else {
            (pair.1, pair.0)
        }
    }

    /// Orders a `(horizontal, vertical)` pair as `(main, cross)` for this
    /// style's direction.
    pub fn switch_axis(&self, pair: (i64, i64)) -> (r: (i64, i64))
        ensures
            r == self.spec_switch_axis(pair),
    {
        if self.has_horizontal_layout() {
            pair
        } else {
            (pair.1, pair.0)
        }
    }
}

/// Style of a text run.
#[derive(Clone, Copy)]
pub struct TextStyle {
    /// The font the renderer should use; interpretation is the renderer's.
    pub font_id: u32,
    /// The font size, in layout units.
    pub font_size: i64,
    /// The color of the text; `None` inherits the surrounding color.
    pub color: Option<Color>,
}

impl Default for TextStyle {
    /// Font 0 at size 16, inheriting the surrounding color.
    fn default() -> (r: Self)
        ensures
            r.font_id == 0,
            r.font_size == 16,
            r.color is None,
    {
        TextStyle { font_id: 0, font_size: 16, color: None }
    }
}

impl TextStyle {
    /// Alias for `TextStyle::default()`.
    pub fn new() -> (r: Self)
        ensures
            r.font_id == 0,
            r.font_size == 16,
            r.color is None,
    {
        TextStyle::default()
    }

    /// Returns this style with the given font id.
    pub fn font_id(self, font_id: u32) -> (r: Self)
        ensures
            r == (TextStyle { font_id, ..self }),
    {
        TextStyle { font_id, ..self }
    }

    /// Returns this style with the given font size.
    pub fn font_size(self, font_size: i64) -> (r: Self)
        ensures
            r == (TextStyle { font_size, ..self }),
    {
        TextStyle { font_size, ..self }
    }

    /// Returns this style with an explicit text color.
    pub fn color(self, color: Color) -> (r: Self)
        ensures
            r == (TextStyle { color: Some(color), ..self }),
    {
        TextStyle { color: Some(color), ..self }
    }
}

} // verus!
