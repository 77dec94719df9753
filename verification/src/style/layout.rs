//! Layout configuration: direction, alignment, justification and gap.

use vstd::prelude::*;
use crate::style::sizing::MAX_DIM;

verus! {

/// The axis and order along which a container lays out its children.
#[derive(Clone, Copy, PartialEq, Eq, Structural, Hash, Debug)]
pub enum Direction {
    /// Lays out elements from left to right (the default).
    LeftToRight,
    /// Lays out elements from top to bottom.
    TopToBottom,
    /// Lays out elements from right to left.
    RightToLeft,
    /// Lays out elements from bottom to top.
    BottomToTop,
}

impl Direction {
    /// True if the direction is horizontal (`LeftToRight` or `RightToLeft`).
    pub open spec fn spec_is_horizontal(self) -> bool {
        self == Direction::LeftToRight || self == Direction::RightToLeft
    }

    /// True if the direction is horizontal (`LeftToRight` or `RightToLeft`).
    pub fn is_horizontal(&self) -> (r: bool)
        ensures
            r == self.spec_is_horizontal(),
    {
        matches!(self, Direction::LeftToRight | Direction::RightToLeft)
    }
}

impl Default for Direction {
    /// The default direction is `LeftToRight`.
    fn default() -> (r: Self)
        ensures
            r == Direction::LeftToRight,
    {
        Direction::LeftToRight
    }
}

/// Cross-axis placement of a container's children.
#[derive(Clone, Copy, PartialEq, Eq, Structural, Debug)]
pub enum Alignment {
    /// Children at the start of the cross axis (the default).
    Start,
    /// Children at the end of the cross axis.
    End,
    /// Children centered on the cross axis.
    Center,
    /// Children stretched to fill the cross axis.
    Stretch,
}

impl Default for Alignment {
    /// The default alignment is `Start`.
    fn default() -> (r: Self)
        ensures
            r == Alignment::Start,
    {
        Alignment::Start
    }
}

/// Main-axis placement of a container's children.
#[derive(Clone, Copy, PartialEq, Eq, Structural, Debug)]
pub enum Justification {
    /// Children packed at the start of the main axis (the default).
    Start,
    /// Children packed at the end of the main axis.
    End,
    /// Children centered on the main axis.
    Center,
    /// Children distributed with the first at the start and the last at the end.
    SpaceBetween,
    /// Children distributed with equal space around them.
    SpaceAround,
}

impl Default for Justification {
    /// The default justification is `Start`.
    fn default() -> (r: Self)
        ensures
            r == Justification::Start,
    {
        Justification::Start
    }
}

/// Layout properties of a flex container: where its children go.
#[derive(Clone, Copy, Debug)]
pub struct Layout {
    pub(crate) direction: Direction,
    pub(crate) alignment: Alignment,
    pub(crate) justification: Justification,
    pub(crate) gap: i64,
}

impl Layout {
    #[verifier::type_invariant]
    pub(crate) open spec fn inv(self) -> bool {
        0 <= self.spec_gap() <= MAX_DIM
    }

    /// The direction in which child elements are laid out.
    pub open(crate) spec fn spec_direction(self) -> Direction {
        self.direction
    }

    /// The alignment of child elements along the cross axis.
    pub open(crate) spec fn spec_alignment(self) -> Alignment {
        self.alignment
    }

    /// The justification of child elements along the main axis.
    pub open(crate) spec fn spec_justification(self) -> Justification {
        self.justification
    }

    /// The configured gap between adjacent children.
    pub open(crate) spec fn spec_gap(self) -> int {
        self.gap as int
    }

    /// The direction in which child elements are laid out.
    pub fn get_direction(&self) -> (r: Direction)
        ensures
            r == self.spec_direction(),
    {
        self.direction
    }

    /// The alignment of child elements along the cross axis.
    pub fn get_alignment(&self) -> (r: Alignment)
        ensures
            r == self.spec_alignment(),
    {
        self.alignment
    }

    /// The justification of child elements along the main axis.
    pub fn get_justification(&self) -> (r: Justification)
        ensures
            r == self.spec_justification(),
    {
        self.justification
    }

    /// Alias for `Layout::default()`.
    pub fn new() -> (r: Self)
        ensures
            r.spec_direction() == Direction::LeftToRight,
            r.spec_alignment() == Alignment::Start,
            r.spec_justification() == Justification::Start,
            r.spec_gap() == 0,
    {
        Layout {
            direction: Direction::LeftToRight,
            alignment: Alignment::Start,
            justification: Justification::Start,
            gap: 0,
        }
    }

    /// Returns this layout with the given direction.
    pub fn direction(self, direction: Direction) -> (r: Self)
        ensures
            r.spec_direction() == direction,
            r.spec_alignment() == self.spec_alignment(),
            r.spec_justification() == self.spec_justification(),
            r.spec_gap() == self.spec_gap(),
    {
        proof {
            use_type_invariant(self);
        }
        Layout { direction, ..self }
    }

    /// Returns this layout with the given alignment.
    pub fn alignment(self, alignment: Alignment) -> (r: Self)
        ensures
            r.spec_direction() == self.spec_direction(),
            r.spec_alignment() == alignment,
            r.spec_justification() == self.spec_justification(),
            r.spec_gap() == self.spec_gap(),
    {
        proof {
            use_type_invariant(self);
        }
        Layout { alignment, ..self }
    }

    /// Returns this layout with the given justification.
    pub fn justification(self, justification: Justification) -> (r: Self)
        ensures
            r.spec_direction() == self.spec_direction(),
            r.spec_alignment() == self.spec_alignment(),
            r.spec_justification() == justification,
            r.spec_gap() == self.spec_gap(),
    {
        proof {
            use_type_invariant(self);
        }
        Layout { justification, ..self }
    }

    /// Returns this layout with the given gap between children.
    /// A negative gap is treated as 0; a gap beyond `MAX_DIM` is capped.
    pub fn gap(self, gap: i64) -> (r: Self)
        ensures
            r.spec_direction() == self.spec_direction(),
            r.spec_alignment() == self.spec_alignment(),
            r.spec_justification() == self.spec_justification(),
            r.spec_gap() == if gap < 0 { 0int } else if gap > MAX_DIM { MAX_DIM as int } else { gap as int },
    {
        proof {
            use_type_invariant(self);
        }
        let g = if gap < 0 { 0 } else if gap > MAX_DIM { MAX_DIM } else { gap };
        Layout { gap: g, ..self }
    }

    /// The gap between adjacent children.
    pub fn get_gap(&self) -> (r: i64)
        ensures
            r == self.spec_gap(),
            0 <= r <= MAX_DIM,
    {
        proof {
            use_type_invariant(self);
        }
        self.gap
    }
}

impl Default for Layout {
    /// Left-to-right, start-aligned, start-justified, no gap.
    fn default() -> (r: Self)
        ensures
            r.spec_direction() == Direction::LeftToRight,
            r.spec_alignment() == Alignment::Start,
            r.spec_justification() == Justification::Start,
            r.spec_gap() == 0,
    {
        Layout::new()
    }
}

} // verus!
