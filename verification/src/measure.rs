//! The text measurement capability that layout depends on.

use vstd::prelude::*;
use vstd::string::StrSliceExecFns;
use crate::style::TextStyle;
use crate::style::sizing::MAX_DIM;

verus! {

/// A text measurement capability supplied by the embedding application.
///
/// Layout treats measurement as total and repeatable: the size of a line is a
/// function of the text and its style alone, with both axes within
/// `[0, MAX_DIM]`. The engine threads a measurer through every layout call
/// instead of holding it globally.
pub trait TextMeasure {
    /// The `(width, height)` this measurer assigns to one line of text.
    spec fn size_of(&self, text: Seq<char>, style: TextStyle) -> (int, int);

    /// Measures one line of text.
    fn measure(&self, text: &str, style: &TextStyle) -> (r: (i64, i64))
        ensures
            r.0 as int == self.size_of(text@, *style).0,
            r.1 as int == self.size_of(text@, *style).1,
            0 <= r.0 <= MAX_DIM,
            0 <= r.1 <= MAX_DIM,
    ;
}

/// A monospace measurer: every character occupies a fixed cell.
///
/// The width of a line is `char_width` times its character count (capped at
/// `MAX_DIM`); the height of every line is `line_height`.
#[derive(Clone, Copy, Debug)]
pub struct CharCellMeasure {
    pub(crate) char_width: i64,
    pub(crate) line_height: i64,
}

impl CharCellMeasure {
    #[verifier::type_invariant]
    pub(crate) open spec fn inv(self) -> bool {
        &&& 0 <= self.spec_char_width() <= MAX_DIM
        &&& 0 <= self.spec_line_height() <= MAX_DIM
    }

    /// The width of one character cell.
    pub open(crate) spec fn spec_char_width(self) -> int {
        self.char_width as int
    }

    /// The height of every line.
    pub open(crate) spec fn spec_line_height(self) -> int {
        self.line_height as int
    }

    /// A monospace measurer with the given cell width and line height.
    /// Negative inputs are treated as 0; inputs beyond `MAX_DIM` are capped.
    pub fn new(char_width: i64, line_height: i64) -> (r: Self)
        ensures
            r.spec_char_width() == crate::style::padding::pad_clip(char_width as int),
            r.spec_line_height() == crate::style::padding::pad_clip(line_height as int),
    {
        let cw = if char_width < 0 {
            0
        } else if char_width > MAX_DIM {
            MAX_DIM
        } else {
            char_width
        };
        let lh = if line_height < 0 {
            0
        } else if line_height > MAX_DIM {
            MAX_DIM
        } else {
            line_height
        };
        CharCellMeasure { char_width: cw, line_height: lh }
    }
}

impl TextMeasure for CharCellMeasure {
    /// Width is `char_width` per character, capped at `MAX_DIM`; height is
    /// `line_height` regardless of the text.
    closed spec fn size_of(&self, text: Seq<char>, style: TextStyle) -> (int, int) {
        (
            if self.spec_char_width() * text.len() > MAX_DIM {
                MAX_DIM as int
            } else {
                self.spec_char_width() * text.len()
            },
            self.spec_line_height(),
        )
    }

    fn measure(&self, text: &str, style: &TextStyle) -> (r: (i64, i64)) {
        proof {
            use_type_invariant(self);
        }
        let len = text.unicode_len();
        proof {
            assert((self.char_width as u128) * (len as u128) <= (MAX_DIM as u128) * (u64::MAX
                as u128)) by (nonlinear_arith)
                requires
                    0 <= self.char_width <= MAX_DIM,
                    len as u128 <= u64::MAX as u128,
            ;
        }
        let wide: u128 = (self.char_width as u128) * (len as u128);
        let width = if wide > (MAX_DIM as u128) {
            MAX_DIM
        } else {
            wide as i64
        };
        (width, self.line_height)
    }
}

} // verus!
