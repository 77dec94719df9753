//! The layout entry point: one draw call runs the whole pipeline.
//!
//! Layout calculations run in this order: widths are fitted bottom-up while
//! the tree is built, the width growth pass runs top-down (text wraps and
//! heights are re-fitted as widths become final), the height growth pass runs
//! top-down, the position pass assigns absolute coordinates, and a pre-order
//! walk emits the drawing commands.

use vstd::prelude::*;
use crate::commands::RenderCommands;
use crate::commands::spec_flex_inherited;
use crate::commands::spec_render_nodes;
use crate::elements::flexbox::FlexBox;
use crate::elements::flexbox::flex_positioned;
use crate::elements::flexbox::height_pass_rel;
use crate::elements::flexbox::width_pass_rel;
use crate::elements::MAX_CHILDREN;
use crate::measure::TextMeasure;
use crate::style::FlexStyle;
use crate::style::sizing::BoxSizing;
use crate::style::sizing::MAX_DIM;
use crate::style::sizing::Sizing;

verus! {

/// The layout engine, bound to a fixed viewport.
///
/// Each draw builds a fresh tree, lays it out against the viewport, and
/// returns the finished command sequence; nothing persists across draws.
pub struct Kaolin {
    pub(crate) width: i64,
    pub(crate) height: i64,
}

impl Kaolin {
    #[verifier::type_invariant]
    pub(crate) open spec fn inv(self) -> bool {
        &&& 0 <= self.spec_width() <= MAX_DIM
        &&& 0 <= self.spec_height() <= MAX_DIM
    }

    /// The viewport width.
    pub open(crate) spec fn spec_width(self) -> int {
        self.width as int
    }

    /// The viewport height.
    pub open(crate) spec fn spec_height(self) -> int {
        self.height as int
    }

    /// An engine for the given `(width, height)` viewport. Negative
    /// dimensions are treated as 0; dimensions beyond `MAX_DIM` are capped.
    pub fn new(window_dimensions: (i64, i64)) -> (r: Self)
        ensures
            r.spec_width() == crate::style::padding::pad_clip(window_dimensions.0 as int),
            r.spec_height() == crate::style::padding::pad_clip(window_dimensions.1 as int),
    {
        let w = if window_dimensions.0 < 0 {
            0
        } else if window_dimensions.0 > MAX_DIM {
            MAX_DIM
        } else {
            window_dimensions.0
        };
        let h = if window_dimensions.1 < 0 {
            0
        } else if window_dimensions.1 > MAX_DIM {
            MAX_DIM
        } else {
            window_dimensions.1
        };
        Kaolin { width: w, height: h }
    }

    /// The root container of a fresh draw: an empty default-styled container
    /// fixed to the viewport size. Attach children with `with` and `text`,
    /// then hand it to `draw`.
    pub fn root(&self) -> (r: FlexBox)
        ensures
            r.spec_children() == Seq::<crate::elements::KaolinNode>::empty(),
            r.spec_style().sizing.width.spec_dims().spec_min() == self.spec_width(),
            r.spec_style().sizing.width.spec_dims().spec_max() == self.spec_width(),
            r.spec_style().sizing.height.spec_dims().spec_min() == self.spec_height(),
            r.spec_style().sizing.height.spec_dims().spec_max() == self.spec_height(),
            r.spec_style().color is None,
    {
        proof {
            use_type_invariant(self);
        }
        let width = match Sizing::fixed(self.width) {
            Ok(s) => s,
            Err(_) => {
                proof {
                    assert(false);
                }
                Sizing::fit()
            },
        };
        let height = match Sizing::fixed(self.height) {
            Ok(s) => s,
            Err(_) => {
                proof {
                    assert(false);
                }
                Sizing::fit()
            },
        };
        let style = FlexStyle::default().sizing(BoxSizing { width, height });
        FlexBox::new(style)
    }

    /// Lays the finished tree out against the viewport and returns the
    /// ordered drawing commands: the width growth pass, the height growth
    /// pass, the position pass against the viewport bounds, and the pre-order
    /// emission, in that order.
    pub fn draw<M: TextMeasure>(&self, m: &M, root: FlexBox) -> (r: RenderCommands)
        requires
            root.spec_children().len() <= MAX_CHILDREN,
        ensures
            exists|grown: FlexBox, tall: FlexBox, placed: FlexBox|
                {
                    &&& #[trigger] width_pass_rel(m, root, grown, self.spec_width())
                    &&& #[trigger] height_pass_rel(grown, tall, self.spec_height())
                    &&& #[trigger] flex_positioned(
                        tall,
                        placed,
                        0,
                        self.spec_width(),
                        0,
                        self.spec_height(),
                    )
                    &&& r@ == spec_render_nodes(
                        m,
                        placed.spec_children(),
                        spec_flex_inherited(
                            placed,
                            crate::style::colors::spec_color(0, 0, 0, 255),
                        ),
                    )
                },
    {
        proof {
            use_type_invariant(self);
        }
        let grown = root.grow_children_width(m, self.width);
        let tall = grown.grow_children_height(self.height);
        let placed = tall.position_children(0, self.width, 0, self.height);
        let ghost g = grown;
        let ghost t = tall;
        let ghost p = placed;
        let r = RenderCommands::new(placed, m);
        proof {
            assert(width_pass_rel(m, root, g, self.spec_width()));
            assert(height_pass_rel(g, t, self.spec_height()));
            assert(flex_positioned(t, p, 0, self.spec_width(), 0, self.spec_height()));
        }
        r
    }
}

} // verus!
