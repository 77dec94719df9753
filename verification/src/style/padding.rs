//! Padding around a container's content.

use vstd::prelude::*;
use crate::style::sizing::MAX_DIM;

verus! {

/// `v` brought into `[0, MAX_DIM]`: negative values become 0, values beyond
/// the ceiling are capped.
pub open spec fn pad_clip(v: int) -> int {
    if v < 0 {
        0
    } else if v > MAX_DIM {
        MAX_DIM as int
    } else {
        v
    }
}

/// The padding of a container, one value per side.
///
/// Each side is brought into `[0, MAX_DIM]` at construction.
#[derive(Clone, Copy, Debug)]
pub struct Padding {
    pub(crate) left: i64,
    pub(crate) right: i64,
    pub(crate) top: i64,
    pub(crate) bottom: i64,
}

impl Padding {
    #[verifier::type_invariant]
    pub(crate) open spec fn inv(self) -> bool {
        &&& 0 <= self.spec_left() <= MAX_DIM
        &&& 0 <= self.spec_right() <= MAX_DIM
        &&& 0 <= self.spec_top() <= MAX_DIM
        &&& 0 <= self.spec_bottom() <= MAX_DIM
    }

    /// The left padding.
    pub open(crate) spec fn spec_left(self) -> int {
        self.left as int
    }

    /// The right padding.
    pub open(crate) spec fn spec_right(self) -> int {
        self.right as int
    }

    /// The top padding.
    pub open(crate) spec fn spec_top(self) -> int {
        self.top as int
    }

    /// The bottom padding.
    pub open(crate) spec fn spec_bottom(self) -> int {
        self.bottom as int
    }

    /// The total horizontal padding, left plus right.
    pub open spec fn spec_x(self) -> int {
        self.spec_left() + self.spec_right()
    }

    /// The total vertical padding, top plus bottom.
    pub open spec fn spec_y(self) -> int {
        self.spec_top() + self.spec_bottom()
    }

    fn clip(v: i64) -> (r: i64)
        ensures
            r == pad_clip(v as int),
    {
        if v < 0 {
            0
        } else if v > MAX_DIM {
            MAX_DIM
        } else {
            v
        }
    }

    /// A padding with the given value on each side.
    pub fn new(left: i64, right: i64, top: i64, bottom: i64) -> (r: Self)
        ensures
            r.spec_left() == pad_clip(left as int),
            r.spec_right() == pad_clip(right as int),
            r.spec_top() == pad_clip(top as int),
            r.spec_bottom() == pad_clip(bottom as int),
    {
        Padding {
            left: Self::clip(left),
            right: Self::clip(right),
            top: Self::clip(top),
            bottom: Self::clip(bottom),
        }
    }

    /// The same value on all four sides.
    pub fn all(value: i64) -> (r: Self)
        ensures
            r.spec_left() == pad_clip(value as int),
            r.spec_right() == pad_clip(value as int),
            r.spec_top() == pad_clip(value as int),
            r.spec_bottom() == pad_clip(value as int),
    {
        Padding::new(value, value, value, value)
    }

    /// The same value on the horizontal sides, zero on the vertical sides.
    pub fn horizontal(value: i64) -> (r: Self)
        ensures
            r.spec_left() == pad_clip(value as int),
            r.spec_right() == pad_clip(value as int),
            r.spec_top() == 0,
            r.spec_bottom() == 0,
    {
        Padding::new(value, value, 0, 0)
    }

    /// The same value on the vertical sides, zero on the horizontal sides.
    pub fn vertical(value: i64) -> (r: Self)
        ensures
            r.spec_left() == 0,
            r.spec_right() == 0,
            r.spec_top() == pad_clip(value as int),
            r.spec_bottom() == pad_clip(value as int),
    {
        Padding::new(0, 0, value, value)
    }

    /// One value for the horizontal sides and one for the vertical sides.
    pub fn hor_ver(hor: i64, ver: i64) -> (r: Self)
        ensures
            r.spec_left() == pad_clip(hor as int),
            r.spec_right() == pad_clip(hor as int),
            r.spec_top() == pad_clip(ver as int),
            r.spec_bottom() == pad_clip(ver as int),
    {
        Padding::new(hor, hor, ver, ver)
    }

    /// Only the left side set, the others zero.
    pub fn left(value: i64) -> (r: Self)
        ensures
            r.spec_left() == pad_clip(value as int),
            r.spec_right() == 0,
            r.spec_top() == 0,
            r.spec_bottom() == 0,
    {
        Padding::new(value, 0, 0, 0)
    }

    /// Only the right side set, the others zero.
    pub fn right(value: i64) -> (r: Self)
        ensures
            r.spec_left() == 0,
            r.spec_right() == pad_clip(value as int),
            r.spec_top() == 0,
            r.spec_bottom() == 0,
    {
        Padding::new(0, value, 0, 0)
    }

    /// Only the top side set, the others zero.
    pub fn top(value: i64) -> (r: Self)
        ensures
            r.spec_left() == 0,
            r.spec_right() == 0,
            r.spec_top() == pad_clip(value as int),
            r.spec_bottom() == 0,
    {
        Padding::new(0, 0, value, 0)
    }

    /// Only the bottom side set, the others zero.
    pub fn bottom(value: i64) -> (r: Self)
        ensures
            r.spec_left() == 0,
            r.spec_right() == 0,
            r.spec_top() == 0,
            r.spec_bottom() == pad_clip(value as int),
    {
        Padding::new(0, 0, 0, value)
    }

    /// The total horizontal padding, left plus right.
    pub fn x(&self) -> (r: i64)
        ensures
            r == self.spec_x(),
            0 <= r <= 2 * MAX_DIM,
    {
        proof {
            use_type_invariant(self);
        }
        self.left + self.right
    }

    /// The total vertical padding, top plus bottom.
    pub fn y(&self) -> (r: i64)
        ensures
            r == self.spec_y(),
            0 <= r <= 2 * MAX_DIM,
    {
        proof {
            use_type_invariant(self);
        }
        self.top + self.bottom
    }

    /// The left padding.
    pub fn get_left(&self) -> (r: i64)
        ensures
            r == self.spec_left(),
            0 <= r <= MAX_DIM,
    {
        proof {
            use_type_invariant(self);
        }
        self.left
    }

    /// The right padding.
    pub fn get_right(&self) -> (r: i64)
        ensures
            r == self.spec_right(),
            0 <= r <= MAX_DIM,
    {
        proof {
            use_type_invariant(self);
        }
        self.right
    }

    /// The top padding.
    pub fn get_top(&self) -> (r: i64)
        ensures
            r == self.spec_top(),
            0 <= r <= MAX_DIM,
    {
        proof {
            use_type_invariant(self);
        }
        self.top
    }

    /// The bottom padding.
    pub fn get_bottom(&self) -> (r: i64)
        ensures
            r == self.spec_bottom(),
            0 <= r <= MAX_DIM,
    {
        proof {
            use_type_invariant(self);
        }
        self.bottom
    }
}

impl Default for Padding {
    /// No padding on any side.
    fn default() -> (r: Self)
        ensures
            r.spec_left() == 0,
            r.spec_right() == 0,
            r.spec_top() == 0,
            r.spec_bottom() == 0,
    {
        Padding { left: 0, right: 0, top: 0, bottom: 0 }
    }
}

} // verus!
