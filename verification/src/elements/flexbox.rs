//! Flex containers: fit, grow/shrink and position algorithms.

use vstd::prelude::*;
use crate::elements::KaolinElement;
use crate::elements::clamp_coord;
use crate::elements::KaolinNode;
use crate::elements::MAX_CHILDREN;
use crate::elements::cumulative_width;
use crate::elements::gaps;
use crate::elements::gaps_of;
use crate::elements::max_width;
use crate::elements::max_width_of;
use crate::elements::sum_widths;
use crate::elements::text::TextElement;
use crate::elements::text::text_height_dims;
use crate::elements::text::text_width_dims;
use crate::elements::text::wrap_result;
use crate::measure::TextMeasure;
use crate::style::FlexStyle;
use crate::style::TextStyle;
use crate::style::sizing::MAX_DIM;
use crate::style::sizing::PreferredSize;
use crate::style::sizing::SizingDimensions;

verus! {

/// A flex container: a style and an ordered group of child nodes.
///
/// The order of the children is the insertion order and the render order.
pub struct FlexBox {
    pub(crate) style: FlexStyle,
    pub(crate) children: Vec<KaolinNode>,
}

/// The width constraints an element reports for layout.
pub open spec fn elem_sizing_w<M: TextMeasure>(m: &M, e: KaolinElement) -> SizingDimensions {
    match e {
        KaolinElement::Flex(f) => f.spec_style().sizing.width.spec_dims(),
        KaolinElement::Text(t) => text_width_dims(m, t.spec_content(), t.spec_style()),
    }
}

/// The height constraints an element reports for layout.
pub open spec fn elem_sizing_h<M: TextMeasure>(m: &M, e: KaolinElement) -> SizingDimensions {
    match e {
        KaolinElement::Flex(f) => f.spec_style().sizing.height.spec_dims(),
        KaolinElement::Text(t) => text_height_dims(m, t.spec_content(), t.spec_style()),
    }
}

/// The starting size on one axis before any growth: the fixed preferred value
/// if there is one, else the minimum.
pub open spec fn default_start(d: SizingDimensions) -> int {
    match d.spec_preferred() {
        PreferredSize::Fixed(v) => v as int,
        PreferredSize::Grow(_) => d.spec_min(),
    }
}

/// The width a container fits to its children: along a horizontal main axis
/// the children in a row plus gaps and padding, along a vertical main axis
/// the widest child plus padding.
pub open spec fn spec_fit_width(f: FlexBox) -> int {
    if f.spec_style().spec_has_horizontal_layout() {
        sum_widths(f.spec_children()) + f.spec_style().padding.spec_x() + gaps_of(
            f.spec_children(),
        ) * f.spec_style().layout.spec_gap()
    } else {
        max_width_of(f.spec_children()) + f.spec_style().padding.spec_x()
    }
}

impl FlexBox {
    /// The style of the container.
    pub open(crate) spec fn spec_style(self) -> FlexStyle {
        self.style
    }

    /// The child nodes of the container, in insertion order.
    pub open(crate) spec fn spec_children(self) -> Seq<KaolinNode> {
        self.children@
    }

    /// An empty container with the given style.
    pub fn new(style: FlexStyle) -> (r: Self)
        ensures
            r.spec_style() == style,
            r.spec_children() == Seq::<KaolinNode>::empty(),
    {
        FlexBox { style, children: Vec::new() }
    }

    /// Fits the width of the container to its children, returning the fitted
    /// width before any clamping.
    pub fn fit_width_to_children(&self) -> (r: i64)
        requires
            self.spec_children().len() <= MAX_CHILDREN,
        ensures
            r == spec_fit_width(*self),
    {
        let pad = self.style.padding.x();
        if self.style.has_horizontal_layout() {
            let cum = cumulative_width(&self.children);
            let n_gaps = gaps(&self.children);
            let g = self.style.layout.get_gap();
            let ng: i64 = n_gaps as i64;
            proof {
                assert(0 <= ng * g <= 0x1_0000i64 * MAX_DIM) by (nonlinear_arith)
                    requires
                        0 <= ng <= 0x1_0000i64,
                        0 <= g <= MAX_DIM,
                ;
            }
            cum + pad + ng * g
        } else {
            max_width(&self.children) + pad
        }
    }

    /// Appends a finished child container, fitting the child's starting
    /// sizes as it is attached.
    pub fn with(self, child: FlexBox) -> (r: Self)
        requires
            self.spec_children().len() < MAX_CHILDREN,
            child.spec_children().len() <= MAX_CHILDREN,
        ensures
            r.spec_style() == self.spec_style(),
            r.spec_children() == self.spec_children().push(spec_flex_node(child)),
    {
        let FlexBox { style, mut children } = self;
        let node = KaolinNode::from_flex(child);
        children.push(node);
        FlexBox { style, children }
    }

    /// Appends a text child, measuring its content with `m` as it is
    /// attached.
    pub fn text<M: TextMeasure>(self, content: &str, style: TextStyle, m: &M) -> (r: Self)
        requires
            self.spec_children().len() < MAX_CHILDREN,
        ensures
            r.spec_style() == self.spec_style(),
            r.spec_children().len() == self.spec_children().len() + 1,
            r.spec_children().take(self.spec_children().len() as int) == self.spec_children(),
            spec_text_node_matches(m, r.spec_children().last(), content@, style),
    {
        let FlexBox { style: own_style, mut children } = self;
        let ghost pre = children@;
        let element = TextElement::new(content, style);
        let node = KaolinNode::from_text(element, m);
        children.push(node);
        proof {
            assert(children@.take(pre.len() as int) =~= pre);
        }
        FlexBox { style: own_style, children }
    }
}

/// The node a finished child container is wrapped into when attached.
pub open spec fn spec_flex_node(f: FlexBox) -> KaolinNode {
    spec_make_node(
        KaolinElement::Flex(f),
        f.spec_style().sizing.width.spec_dims(),
        f.spec_style().sizing.height.spec_dims(),
        f.spec_style().sizing.width.spec_dims().spec_is_growable(),
        f.spec_style().sizing.height.spec_dims().spec_is_growable(),
        f.spec_style().sizing.width.spec_dims().spec_is_shrinkable(),
        f.spec_style().sizing.width.spec_dims().spec_clamped(spec_fit_width(f)),
        default_start(f.spec_style().sizing.height.spec_dims()),
    )
}

impl KaolinNode {
    /// A node wrapping a finished child container, its starting sizes fitted
    /// to the container's children.
    pub fn from_flex(f: FlexBox) -> (r: Self)
        requires
            f.spec_children().len() <= MAX_CHILDREN,
        ensures
            r == spec_flex_node(f),
    {
        let sizing_w = f.style.sizing.width.dimensions();
        let sizing_h = f.style.sizing.height.dimensions();
        proof {
            use_type_invariant(&sizing_w);
            use_type_invariant(&sizing_h);
        }
        let fit = f.fit_width_to_children();
        let current_width = sizing_w.clamped(fit);
        let growable_width = sizing_w.is_growable();
        let growable_height = sizing_h.is_growable();
        let shrinkable = sizing_w.is_shrinkable();
        let current_height = KaolinNode::start_of(&sizing_h);
        KaolinNode {
            element: KaolinElement::Flex(f),
            sizing_w,
            sizing_h,
            growable_width,
            growable_height,
            shrinkable,
            current_width,
            current_height,
            x: 0,
            y: 0,
        }
    }

    /// The starting size for one axis: the fixed preferred value, else the
    /// minimum.
    fn start_of(d: &SizingDimensions) -> (r: i64)
        ensures
            r == default_start(*d),
            d.spec_min() <= r <= d.spec_max(),
            0 <= r <= MAX_DIM,
    {
        proof {
            use_type_invariant(d);
        }
        match d.preferred {
            PreferredSize::Fixed(v) => v,
            PreferredSize::Grow(_) => d.min(),
        }
    }
}

/// True when `c` is the node a fresh text run with the given content and
/// style is wrapped into.
pub open spec fn spec_text_node_matches<M: TextMeasure>(
    m: &M,
    c: KaolinNode,
    content: Seq<char>,
    style: TextStyle,
) -> bool {
    &&& c.spec_element() matches KaolinElement::Text(t) && t.spec_content() == content
        && t.spec_style() == style && t.spec_word_starts()
        == crate::elements::text::non_ws_starts(
        content,
        crate::elements::text::word_start_indices(content),
    ) && t.spec_lines() == Seq::<
        (int, int),
    >::empty()
    &&& c.spec_sizing_w() == text_width_dims(m, content, style)
    &&& c.spec_sizing_h() == text_height_dims(m, content, style)
    &&& !c.spec_growable_width()
    &&& !c.spec_growable_height()
    &&& c.spec_shrinkable()
    &&& c.spec_width() == default_start(text_width_dims(m, content, style))
    &&& c.spec_height() == default_start(text_height_dims(m, content, style))
    &&& c.spec_x() == 0 && c.spec_y() == 0
}

impl KaolinNode {
    /// A node wrapping a text run, its sizes measured with `m`.
    pub fn from_text<M: TextMeasure>(t: TextElement, m: &M) -> (r: Self)
        requires
            t.spec_lines() == Seq::<(int, int)>::empty(),
            t.spec_word_starts() == crate::elements::text::non_ws_starts(
                t.spec_content(),
                crate::elements::text::word_start_indices(t.spec_content()),
            ),
        ensures
            spec_text_node_matches(m, r, t.spec_content(), t.spec_style()),
    {
        let (sizing_w, sizing_h) = t.get_sizing_dimensions(m);
        proof {
            use_type_invariant(&sizing_w);
            use_type_invariant(&sizing_h);
        }
        let current_width = KaolinNode::start_of(&sizing_w);
        let current_height = KaolinNode::start_of(&sizing_h);
        KaolinNode {
            element: KaolinElement::Text(t),
            sizing_w,
            sizing_h,
            growable_width: false,
            growable_height: false,
            shrinkable: true,
            current_width,
            current_height,
            x: 0,
            y: 0,
        }
    }

    /// A node wrapping any element: containers are fitted to their children,
    /// text runs are measured with `m`.
    pub fn new<M: TextMeasure>(element: KaolinElement, m: &M) -> (r: Self)
        requires
            element matches KaolinElement::Flex(f) ==> f.spec_children().len() <= MAX_CHILDREN,
            element matches KaolinElement::Text(t) ==> t.spec_lines() == Seq::<(int, int)>::empty()
                && t.spec_word_starts() == crate::elements::text::non_ws_starts(
                t.spec_content(),
                crate::elements::text::word_start_indices(t.spec_content()),
            ),
        ensures
            element matches KaolinElement::Flex(f) ==> r == spec_flex_node(f),
            element matches KaolinElement::Text(t) ==> spec_text_node_matches(
                m,
                r,
                t.spec_content(),
                t.spec_style(),
            ),
    {
        match element {
            KaolinElement::Flex(f) => KaolinNode::from_flex(f),
            KaolinElement::Text(t) => KaolinNode::from_text(t, m),
        }
    }
}

/// Replacing one node changes a width sum by the width difference.
pub proof fn lemma_sum_widths_update(s: Seq<KaolinNode>, i: int, n: KaolinNode)
    requires
        0 <= i < s.len(),
    ensures
        sum_widths(s.update(i, n)) == sum_widths(s) - s[i].spec_width() + n.spec_width(),
    decreases s.len(),
{
    let s2 = s.update(i, n);
    if i == s.len() - 1 {
        assert(s2.drop_last() =~= s.drop_last());
        assert(s2.last() == n);
    } else {
        lemma_sum_widths_update(s.drop_last(), i, n);
        assert(s2.drop_last() =~= s.drop_last().update(i, n));
        assert(s2.last() == s.last());
    }
}

/// Replacing one node changes a height sum by the height difference.
pub proof fn lemma_sum_heights_update(s: Seq<KaolinNode>, i: int, n: KaolinNode)
    requires
        0 <= i < s.len(),
    ensures
        crate::elements::sum_heights(s.update(i, n)) == crate::elements::sum_heights(s)
            - s[i].spec_height() + n.spec_height(),
    decreases s.len(),
{
    let s2 = s.update(i, n);
    if i == s.len() - 1 {
        assert(s2.drop_last() =~= s.drop_last());
        assert(s2.last() == n);
    } else {
        lemma_sum_heights_update(s.drop_last(), i, n);
        assert(s2.drop_last() =~= s.drop_last().update(i, n));
        assert(s2.last() == s.last());
    }
}

/// What one width-distribution pass may do to a single child: bounds and
/// policy flags move only as the algorithm allows, and nothing else changes.
pub open spec fn width_pass_child(oc: KaolinNode, nc: KaolinNode) -> bool {
    &&& nc.spec_element() == oc.spec_element()
    &&& nc.spec_sizing_w() == oc.spec_sizing_w()
    &&& nc.spec_sizing_h() == oc.spec_sizing_h()
    &&& nc.spec_height() == oc.spec_height()
    &&& nc.spec_growable_height() == oc.spec_growable_height()
    &&& nc.spec_x() == oc.spec_x()
    &&& nc.spec_y() == oc.spec_y()
    &&& (nc.spec_growable_width() ==> oc.spec_growable_width())
    &&& (nc.spec_shrinkable() ==> oc.spec_shrinkable())
    &&& (nc.spec_width() != oc.spec_width() ==> oc.spec_sizing_w().spec_min() <= nc.spec_width()
        <= oc.spec_sizing_w().spec_max())
}

/// The truncating share of `bound` that a weight `f` out of `total` receives.
fn share_of(bound: i64, f: i64, total: i64) -> (r: i64)
    requires
        0 <= bound <= crate::elements::NO_SIZE,
        0 <= f <= crate::style::sizing::MAX_FACTOR,
        0 < total,
    ensures
        r == crate::elements::tdiv(bound * f, total as int),
        0 <= r <= bound * f,
{
    proof {
        assert(0 <= bound * f <= crate::elements::NO_SIZE as i64 * crate::style::sizing::MAX_FACTOR)
            by (nonlinear_arith)
            requires
                0 <= bound <= crate::elements::NO_SIZE,
                0 <= f <= crate::style::sizing::MAX_FACTOR,
        ;
    }
    let p = bound * f;
    let q = p / total;
    proof {
        assert(q == crate::elements::tdiv(p as int, total as int));
        assert(0 <= q <= p) by (nonlinear_arith)
            requires
                q == p as int / total as int,
                0 <= p,
                0 < total,
        ;
    }
    q
}

/// The number of nodes still growable in width.
pub open spec fn count_growable_w(s: Seq<KaolinNode>) -> int
    decreases s,
{
    if s.len() == 0 {
        0
    } else {
        count_growable_w(s.drop_last()) + if s.last().spec_growable_width() {
            1int
        } else {
            0int
        }
    }
}

/// The number of nodes still shrinkable.
pub open spec fn count_shrinkable(s: Seq<KaolinNode>) -> int
    decreases s,
{
    if s.len() == 0 {
        0
    } else {
        count_shrinkable(s.drop_last()) + if s.last().spec_shrinkable() {
            1int
        } else {
            0int
        }
    }
}

/// The number of nodes still growable in height.
pub open spec fn count_growable_h(s: Seq<KaolinNode>) -> int
    decreases s,
{
    if s.len() == 0 {
        0
    } else {
        count_growable_h(s.drop_last()) + if s.last().spec_growable_height() {
            1int
        } else {
            0int
        }
    }
}

/// Replacing one node changes a flag count by the flag difference.
proof fn lemma_counts_update(s: Seq<KaolinNode>, i: int, n: KaolinNode)
    requires
        0 <= i < s.len(),
    ensures
        count_growable_w(s.update(i, n)) == count_growable_w(s) - (if s[i].spec_growable_width() {
            1int
        } else {
            0int
        }) + (if n.spec_growable_width() {
            1int
        } else {
            0int
        }),
        count_shrinkable(s.update(i, n)) == count_shrinkable(s) - (if s[i].spec_shrinkable() {
            1int
        } else {
            0int
        }) + (if n.spec_shrinkable() {
            1int
        } else {
            0int
        }),
        count_growable_h(s.update(i, n)) == count_growable_h(s) - (
        if s[i].spec_growable_height() {
            1int
        } else {
            0int
        }) + (if n.spec_growable_height() {
            1int
        } else {
            0int
        }),
    decreases s.len(),
{
    let s2 = s.update(i, n);
    if i == s.len() - 1 {
        assert(s2.drop_last() =~= s.drop_last());
        assert(s2.last() == n);
    } else {
        lemma_counts_update(s.drop_last(), i, n);
        assert(s2.drop_last() =~= s.drop_last().update(i, n));
        assert(s2.last() == s.last());
    }
}

/// Flag counts are never negative.
proof fn lemma_counts_nonneg(s: Seq<KaolinNode>)
    ensures
        count_growable_w(s) >= 0,
        count_shrinkable(s) >= 0,
        count_growable_h(s) >= 0,
    decreases s.len(),
{
    if s.len() > 0 {
        lemma_counts_nonneg(s.drop_last());
    }
}

/// A sequence of all-growable nodes counts its whole length.
proof fn lemma_count_growable_w_full(s: Seq<KaolinNode>)
    requires
        forall|i: int| 0 <= i < s.len() ==> (#[trigger] s[i]).spec_growable_width(),
    ensures
        count_growable_w(s) == s.len(),
    decreases s.len(),
{
    if s.len() > 0 {
        assert(forall|i: int| 0 <= i < s.len() - 1 ==> s.drop_last()[i] == #[trigger] s[i]);
        lemma_count_growable_w_full(s.drop_last());
        assert(s.last() == s[s.len() - 1]);
    }
}

/// A sequence of all-height-growable nodes counts its whole length.
proof fn lemma_count_growable_h_full(s: Seq<KaolinNode>)
    requires
        forall|i: int| 0 <= i < s.len() ==> (#[trigger] s[i]).spec_growable_height(),
    ensures
        count_growable_h(s) == s.len(),
    decreases s.len(),
{
    if s.len() > 0 {
        assert(forall|i: int| 0 <= i < s.len() - 1 ==> s.drop_last()[i] == #[trigger] s[i]);
        lemma_count_growable_h_full(s.drop_last());
        assert(s.last() == s[s.len() - 1]);
    }
}

/// Any growable node's width bounds the smallest growable width from above.
proof fn lemma_min_growable_w_le(s: Seq<KaolinNode>, i: int)
    requires
        0 <= i < s.len(),
        s[i].spec_growable_width(),
    ensures
        crate::elements::min_growable_width(s) <= s[i].spec_width(),
    decreases s.len(),
{
    if i == s.len() - 1 {
        assert(s.last() == s[i]);
    } else {
        lemma_min_growable_w_le(s.drop_last(), i);
        assert(s.drop_last()[i] == s[i]);
    }
}

/// Any height-growable node's height bounds the smallest growable height.
proof fn lemma_min_growable_h_le(s: Seq<KaolinNode>, i: int)
    requires
        0 <= i < s.len(),
        s[i].spec_growable_height(),
    ensures
        crate::elements::min_growable_height(s) <= s[i].spec_height(),
    decreases s.len(),
{
    if i == s.len() - 1 {
        assert(s.last() == s[i]);
    } else {
        lemma_min_growable_h_le(s.drop_last(), i);
        assert(s.drop_last()[i] == s[i]);
    }
}

/// A non-sentinel smallest growable width is attained by a growable node.
proof fn lemma_min_growable_w_attained(s: Seq<KaolinNode>)
    requires
        crate::elements::min_growable_width(s) != crate::elements::NO_SIZE,
    ensures
        exists|i: int|
            0 <= i < s.len() && (#[trigger] s[i]).spec_growable_width() && s[i].spec_width()
                == crate::elements::min_growable_width(s),
    decreases s.len(),
{
    if s.len() > 0 {
        let rest = crate::elements::min_growable_width(s.drop_last());
        if s.last().spec_growable_width() && s.last().spec_width() < rest {
            assert(s[s.len() - 1] == s.last());
        } else {
            lemma_min_growable_w_attained(s.drop_last());
            let i = choose|i: int|
                0 <= i < s.drop_last().len() && (#[trigger] s.drop_last()[i]).spec_growable_width()
                    && s.drop_last()[i].spec_width() == rest;
            assert(s[i] == s.drop_last()[i]);
        }
    }
}

/// A non-sentinel smallest growable height is attained by a growable node.
proof fn lemma_min_growable_h_attained(s: Seq<KaolinNode>)
    requires
        crate::elements::min_growable_height(s) != crate::elements::NO_SIZE,
    ensures
        exists|i: int|
            0 <= i < s.len() && (#[trigger] s[i]).spec_growable_height() && s[i].spec_height()
                == crate::elements::min_growable_height(s),
    decreases s.len(),
{
    if s.len() > 0 {
        let rest = crate::elements::min_growable_height(s.drop_last());
        if s.last().spec_growable_height() && s.last().spec_height() < rest {
            assert(s[s.len() - 1] == s.last());
        } else {
            lemma_min_growable_h_attained(s.drop_last());
            let i = choose|i: int|
                0 <= i < s.drop_last().len() && (
                #[trigger] s.drop_last()[i]).spec_growable_height() && s.drop_last()[
                    i
                ].spec_height() == rest;
            assert(s[i] == s.drop_last()[i]);
        }
    }
}

/// One eligible node's factor bounds the tier's factor sum from below.
proof fn lemma_factor_sum_w_lower(s: Seq<KaolinNode>, i: int, w: int)
    requires
        0 <= i < s.len(),
        s[i].spec_growable_width(),
        s[i].spec_width() == w,
        forall|k: int|
            0 <= k < s.len() ==> (#[trigger] s[k]).spec_sizing_w().spec_grow_factor() >= 0,
    ensures
        crate::elements::sum_grow_factors_w_at(s, w) >= s[i].spec_sizing_w().spec_grow_factor(),
    decreases s.len(),
{
    if i == s.len() - 1 {
        assert(s.last() == s[i]);
        lemma_factor_sum_w_nonneg(s.drop_last(), w);
    } else {
        assert(forall|k: int| 0 <= k < s.len() - 1 ==> s.drop_last()[k] == #[trigger] s[k]);
        lemma_factor_sum_w_lower(s.drop_last(), i, w);
        assert(s.last() == s[s.len() - 1]);
    }
}

/// A tier's factor sum is non-negative when every factor is.
proof fn lemma_factor_sum_w_nonneg(s: Seq<KaolinNode>, w: int)
    requires
        forall|k: int|
            0 <= k < s.len() ==> (#[trigger] s[k]).spec_sizing_w().spec_grow_factor() >= 0,
    ensures
        crate::elements::sum_grow_factors_w_at(s, w) >= 0,
    decreases s.len(),
{
    if s.len() > 0 {
        assert(forall|k: int| 0 <= k < s.len() - 1 ==> s.drop_last()[k] == #[trigger] s[k]);
        lemma_factor_sum_w_nonneg(s.drop_last(), w);
        assert(s.last() == s[s.len() - 1]);
    }
}

/// One eligible node's factor bounds the height tier's factor sum from below.
proof fn lemma_factor_sum_h_lower(s: Seq<KaolinNode>, i: int, h: int)
    requires
        0 <= i < s.len(),
        s[i].spec_growable_height(),
        s[i].spec_height() == h,
        forall|k: int|
            0 <= k < s.len() ==> (#[trigger] s[k]).spec_sizing_h().spec_grow_factor() >= 0,
    ensures
        crate::elements::sum_grow_factors_h_at(s, h) >= s[i].spec_sizing_h().spec_grow_factor(),
    decreases s.len(),
{
    if i == s.len() - 1 {
        assert(s.last() == s[i]);
        lemma_factor_sum_h_nonneg(s.drop_last(), h);
    } else {
        assert(forall|k: int| 0 <= k < s.len() - 1 ==> s.drop_last()[k] == #[trigger] s[k]);
        lemma_factor_sum_h_lower(s.drop_last(), i, h);
        assert(s.last() == s[s.len() - 1]);
    }
}

/// A height tier's factor sum is non-negative when every factor is.
proof fn lemma_factor_sum_h_nonneg(s: Seq<KaolinNode>, h: int)
    requires
        forall|k: int|
            0 <= k < s.len() ==> (#[trigger] s[k]).spec_sizing_h().spec_grow_factor() >= 0,
    ensures
        crate::elements::sum_grow_factors_h_at(s, h) >= 0,
    decreases s.len(),
{
    if s.len() > 0 {
        assert(forall|k: int| 0 <= k < s.len() - 1 ==> s.drop_last()[k] == #[trigger] s[k]);
        lemma_factor_sum_h_nonneg(s.drop_last(), h);
        assert(s.last() == s[s.len() - 1]);
    }
}

/// The numeric sanity a real node's type invariants give its width state.
pub open spec fn node_w_sane(c: KaolinNode) -> bool {
    &&& 0 <= c.spec_width() <= MAX_DIM
    &&& c.spec_sizing_w().spec_min() <= c.spec_width() <= c.spec_sizing_w().spec_max()
    &&& 0 <= c.spec_sizing_w().spec_min() <= c.spec_sizing_w().spec_max() <= MAX_DIM
    &&& 0 <= c.spec_sizing_w().spec_grow_factor() <= crate::style::sizing::MAX_FACTOR
}

/// The numeric sanity a real node's type invariants give its height state.
pub open spec fn node_h_sane(c: KaolinNode) -> bool {
    &&& 0 <= c.spec_height() <= MAX_DIM
    &&& c.spec_sizing_h().spec_min() <= c.spec_height() <= c.spec_sizing_h().spec_max()
    &&& 0 <= c.spec_sizing_h().spec_min() <= c.spec_sizing_h().spec_max() <= MAX_DIM
    &&& 0 <= c.spec_sizing_h().spec_grow_factor() <= crate::style::sizing::MAX_FACTOR
}

/// Gathers the type-invariant facts of every child for ghost reasoning.
fn harvest_node_sanity(children: &Vec<KaolinNode>)
    ensures
        forall|k: int|
            0 <= k < children@.len() ==> node_w_sane(#[trigger] children@[k]) && node_h_sane(
                children@[k],
            ),
{
    let n = children.len();
    let mut i: usize = 0;
    while i < n
        invariant
            n == children@.len(),
            0 <= i <= n,
            forall|k: int|
                0 <= k < i ==> node_w_sane(#[trigger] children@[k]) && node_h_sane(children@[k]),
        decreases n - i,
    {
        let c = &children[i];
        proof {
            use_type_invariant(c);
            use_type_invariant(&c.sizing_w);
            use_type_invariant(&c.sizing_h);
        }
        i = i + 1;
    }
}

/// Any shrinkable node's width bounds the largest shrinkable width from
/// below.
proof fn lemma_max_shrinkable_ge(s: Seq<KaolinNode>, i: int)
    requires
        0 <= i < s.len(),
        s[i].spec_shrinkable(),
    ensures
        crate::elements::max_shrinkable_width(s) >= s[i].spec_width(),
    decreases s.len(),
{
    if i == s.len() - 1 {
        assert(s.last() == s[i]);
    } else {
        lemma_max_shrinkable_ge(s.drop_last(), i);
        assert(s.drop_last()[i] == s[i]);
    }
}

/// With a shrinkable node present and no negative widths, the largest
/// shrinkable width is attained by a shrinkable node.
proof fn lemma_max_shrinkable_attained(s: Seq<KaolinNode>)
    requires
        exists|i: int| 0 <= i < s.len() && (#[trigger] s[i]).spec_shrinkable(),
        forall|i: int| 0 <= i < s.len() ==> (#[trigger] s[i]).spec_width() >= 0,
    ensures
        exists|i: int|
            0 <= i < s.len() && (#[trigger] s[i]).spec_shrinkable() && s[i].spec_width()
                == crate::elements::max_shrinkable_width(s),
    decreases s.len(),
{
    let w = choose|i: int| 0 <= i < s.len() && (#[trigger] s[i]).spec_shrinkable();
    lemma_max_shrinkable_ge(s, w);
    let rest = crate::elements::max_shrinkable_width(s.drop_last());
    if s.last().spec_shrinkable() && s.last().spec_width() > rest {
        assert(s[s.len() - 1] == s.last());
    } else {
        if w < s.len() - 1 {
            assert(forall|i: int| 0 <= i < s.len() - 1 ==> s.drop_last()[i] == #[trigger] s[i]);
            lemma_max_shrinkable_attained(s.drop_last());
            let j = choose|j: int|
                0 <= j < s.drop_last().len() && (#[trigger] s.drop_last()[j]).spec_shrinkable()
                    && s.drop_last()[j].spec_width() == rest;
            assert(s[j] == s.drop_last()[j]);
        } else {
            // the only shrinkable node is the last one, at the default level
            assert(s.last() == s[w]);
            assert(s.last().spec_width() <= rest);
            if s.drop_last().len() > 0 && (exists|i: int|
                0 <= i < s.drop_last().len() && (#[trigger] s.drop_last()[i]).spec_shrinkable()) {
                assert(forall|i: int|
                    0 <= i < s.len() - 1 ==> s.drop_last()[i] == #[trigger] s[i]);
                lemma_max_shrinkable_attained(s.drop_last());
                let j = choose|j: int|
                    0 <= j < s.drop_last().len() && (
                    #[trigger] s.drop_last()[j]).spec_shrinkable() && s.drop_last()[
                        j
                    ].spec_width() == rest;
                assert(s[j] == s.drop_last()[j]);
            } else {
                lemma_max_shrinkable_none(s.drop_last());
                assert(rest == 0);
                assert(s[w].spec_width() == 0);
            }
        }
    }
}

/// With no shrinkable node the largest shrinkable width is the default 0.
proof fn lemma_max_shrinkable_none(s: Seq<KaolinNode>)
    requires
        forall|i: int| 0 <= i < s.len() ==> !(#[trigger] s[i]).spec_shrinkable(),
    ensures
        crate::elements::max_shrinkable_width(s) == 0,
    decreases s.len(),
{
    if s.len() > 0 {
        assert(forall|i: int| 0 <= i < s.len() - 1 ==> s.drop_last()[i] == #[trigger] s[i]);
        lemma_max_shrinkable_none(s.drop_last());
        assert(s.last() == s[s.len() - 1]);
    }
}

/// One shrinkable node at width `w` puts at least one member in the tier.
proof fn lemma_count_at_lower(s: Seq<KaolinNode>, i: int, w: int)
    requires
        0 <= i < s.len(),
        s[i].spec_shrinkable(),
        s[i].spec_width() == w,
    ensures
        crate::elements::count_shrinkable_at(s, w) >= 1,
    decreases s.len(),
{
    if i == s.len() - 1 {
        assert(s.last() == s[i]);
        lemma_count_at_nonneg(s.drop_last(), w);
    } else {
        assert(forall|k: int| 0 <= k < s.len() - 1 ==> s.drop_last()[k] == #[trigger] s[k]);
        lemma_count_at_lower(s.drop_last(), i, w);
        assert(s.last() == s[s.len() - 1]);
    }
}

/// Tier member counts are never negative.
proof fn lemma_count_at_nonneg(s: Seq<KaolinNode>, w: int)
    ensures
        crate::elements::count_shrinkable_at(s, w) >= 0,
    decreases s.len(),
{
    if s.len() > 0 {
        lemma_count_at_nonneg(s.drop_last(), w);
    }
}

/// A sequence of all-shrinkable nodes counts its whole length.
proof fn lemma_count_shrinkable_full(s: Seq<KaolinNode>)
    requires
        forall|i: int| 0 <= i < s.len() ==> (#[trigger] s[i]).spec_shrinkable(),
    ensures
        count_shrinkable(s) == s.len(),
    decreases s.len(),
{
    if s.len() > 0 {
        assert(forall|i: int| 0 <= i < s.len() - 1 ==> s.drop_last()[i] == #[trigger] s[i]);
        lemma_count_shrinkable_full(s.drop_last());
        assert(s.last() == s[s.len() - 1]);
    }
}

/// Every child can absorb the whole width deficit on its own: still
/// shrinkable, with a minimum the deficit cannot reach.
pub open spec fn all_shrinkable_unbounded(s: Seq<KaolinNode>, budget: int) -> bool {
    forall|i: int|
        0 <= i < s.len() ==> (#[trigger] s[i]).spec_shrinkable()
            && s[i].spec_sizing_w().spec_min() <= s[i].spec_width() + budget
}

/// Every child can absorb the whole width budget on its own: still growable,
/// with a positive weight, and with a maximum the budget cannot reach.
pub open spec fn all_growable_w_unbounded(s: Seq<KaolinNode>, budget: int) -> bool {
    forall|i: int|
        0 <= i < s.len() ==> (#[trigger] s[i]).spec_growable_width()
            && s[i].spec_sizing_w().spec_grow_factor() >= 1 && s[i].spec_sizing_w().spec_max()
            >= s[i].spec_width() + budget
}

/// Every child can absorb the whole height budget on its own.
pub open spec fn all_growable_h_unbounded(s: Seq<KaolinNode>, budget: int) -> bool {
    forall|i: int|
        0 <= i < s.len() ==> (#[trigger] s[i]).spec_growable_height()
            && s[i].spec_sizing_h().spec_grow_factor() >= 1 && s[i].spec_sizing_h().spec_max()
            >= s[i].spec_height() + budget
}

/// The width grow factors of the nodes, in order.
pub open spec fn w_factors(s: Seq<KaolinNode>) -> Seq<int>
    decreases s,
{
    if s.len() == 0 {
        Seq::empty()
    } else {
        w_factors(s.drop_last()).push(s.last().spec_sizing_w().spec_grow_factor())
    }
}

/// The height grow factors of the nodes, in order.
pub open spec fn h_factors(s: Seq<KaolinNode>) -> Seq<int>
    decreases s,
{
    if s.len() == 0 {
        Seq::empty()
    } else {
        h_factors(s.drop_last()).push(s.last().spec_sizing_h().spec_grow_factor())
    }
}

/// The factor sequences index the nodes' factors.
proof fn lemma_factors_index(s: Seq<KaolinNode>, i: int)
    requires
        0 <= i < s.len(),
    ensures
        w_factors(s).len() == s.len(),
        h_factors(s).len() == s.len(),
        w_factors(s)[i] == s[i].spec_sizing_w().spec_grow_factor(),
        h_factors(s)[i] == s[i].spec_sizing_h().spec_grow_factor(),
    decreases s.len(),
{
    lemma_factors_len(s);
    if i == s.len() - 1 {
        assert(s.last() == s[i]);
    } else {
        lemma_factors_index(s.drop_last(), i);
        assert(s.drop_last()[i] == s[i]);
        lemma_factors_len(s.drop_last());
    }
}

/// The factor sequences are as long as the node sequence.
proof fn lemma_factors_len(s: Seq<KaolinNode>)
    ensures
        w_factors(s).len() == s.len(),
        h_factors(s).len() == s.len(),
    decreases s.len(),
{
    if s.len() > 0 {
        lemma_factors_len(s.drop_last());
    }
}

/// When every node is width-growable at the common width `w`, the tier's
/// factor sum is the sum of all factors.
proof fn lemma_all_at_w_factor_sum(s: Seq<KaolinNode>, w: int)
    requires
        forall|i: int|
            0 <= i < s.len() ==> (#[trigger] s[i]).spec_growable_width() && s[i].spec_width()
                == w,
    ensures
        crate::elements::sum_grow_factors_w_at(s, w) == sum_of(w_factors(s)),
    decreases s.len(),
{
    if s.len() > 0 {
        assert(forall|i: int| 0 <= i < s.len() - 1 ==> s.drop_last()[i] == #[trigger] s[i]);
        lemma_all_at_w_factor_sum(s.drop_last(), w);
        assert(s.last() == s[s.len() - 1]);
        assert(w_factors(s).drop_last() =~= w_factors(s.drop_last()));
    }
}

/// When every node is height-growable at the common height `h`, the tier's
/// factor sum is the sum of all factors.
proof fn lemma_all_at_h_factor_sum(s: Seq<KaolinNode>, h: int)
    requires
        forall|i: int|
            0 <= i < s.len() ==> (#[trigger] s[i]).spec_growable_height() && s[i].spec_height()
                == h,
    ensures
        crate::elements::sum_grow_factors_h_at(s, h) == sum_of(h_factors(s)),
    decreases s.len(),
{
    if s.len() > 0 {
        assert(forall|i: int| 0 <= i < s.len() - 1 ==> s.drop_last()[i] == #[trigger] s[i]);
        lemma_all_at_h_factor_sum(s.drop_last(), h);
        assert(s.last() == s[s.len() - 1]);
        assert(h_factors(s).drop_last() =~= h_factors(s.drop_last()));
    }
}

/// With every width equal to `w` there is no growable width above `w`.
proof fn lemma_min_above_all_equal_w(s: Seq<KaolinNode>, w: int)
    requires
        forall|i: int| 0 <= i < s.len() ==> (#[trigger] s[i]).spec_width() == w,
    ensures
        crate::elements::min_growable_width_above(s, w) == crate::elements::NO_SIZE,
    decreases s.len(),
{
    if s.len() > 0 {
        assert(forall|i: int| 0 <= i < s.len() - 1 ==> s.drop_last()[i] == #[trigger] s[i]);
        lemma_min_above_all_equal_w(s.drop_last(), w);
        assert(s.last() == s[s.len() - 1]);
    }
}

/// With every height equal to `h` there is no growable height above `h`.
proof fn lemma_min_above_all_equal_h(s: Seq<KaolinNode>, h: int)
    requires
        forall|i: int| 0 <= i < s.len() ==> (#[trigger] s[i]).spec_height() == h,
    ensures
        crate::elements::min_growable_height_above(s, h) == crate::elements::NO_SIZE,
    decreases s.len(),
{
    if s.len() > 0 {
        assert(forall|i: int| 0 <= i < s.len() - 1 ==> s.drop_last()[i] == #[trigger] s[i]);
        lemma_min_above_all_equal_h(s.drop_last(), h);
        assert(s.last() == s[s.len() - 1]);
    }
}

/// Prefixes of the share sums are non-negative and never exceed the whole.
proof fn lemma_sum_shares_prefix(budget: int, fs: Seq<int>, total: int, j: int)
    requires
        budget >= 0,
        total > 0,
        0 <= j <= fs.len(),
        forall|i: int| 0 <= i < fs.len() ==> #[trigger] fs[i] >= 0,
    ensures
        0 <= sum_shares(budget, fs.take(j), total) <= sum_shares(budget, fs, total),
    decreases fs.len(),
{
    if j == fs.len() {
        assert(fs.take(j) =~= fs);
        lemma_sum_shares_nonneg(budget, fs, total);
    } else {
        assert(forall|i: int| 0 <= i < fs.len() - 1 ==> fs.drop_last()[i] == #[trigger] fs[i]);
        assert(fs.take(j) =~= fs.drop_last().take(j));
        lemma_sum_shares_prefix(budget, fs.drop_last(), total, j);
        assert(fs.last() == fs[fs.len() - 1]);
        assert(budget * fs.last() >= 0) by (nonlinear_arith)
            requires
                budget >= 0,
                fs.last() >= 0,
        ;
        assert(budget * fs.last() / total >= 0) by (nonlinear_arith)
            requires
                budget * fs.last() >= 0,
                total > 0,
        ;
    }
}

/// Share sums over non-negative weights are non-negative.
proof fn lemma_sum_shares_nonneg(budget: int, fs: Seq<int>, total: int)
    requires
        budget >= 0,
        total > 0,
        forall|i: int| 0 <= i < fs.len() ==> #[trigger] fs[i] >= 0,
    ensures
        sum_shares(budget, fs, total) >= 0,
    decreases fs.len(),
{
    if fs.len() > 0 {
        assert(forall|i: int| 0 <= i < fs.len() - 1 ==> fs.drop_last()[i] == #[trigger] fs[i]);
        lemma_sum_shares_nonneg(budget, fs.drop_last(), total);
        assert(fs.last() == fs[fs.len() - 1]);
        assert(budget * fs.last() >= 0) by (nonlinear_arith)
            requires
                budget >= 0,
                fs.last() >= 0,
        ;
        assert(budget * fs.last() / total >= 0) by (nonlinear_arith)
            requires
                budget * fs.last() >= 0,
                total > 0,
        ;
    }
}

/// With every factor at least one, the factor sum covers the node count.
proof fn lemma_w_factor_sum_ge_len(s: Seq<KaolinNode>)
    requires
        forall|i: int|
            0 <= i < s.len() ==> (#[trigger] s[i]).spec_sizing_w().spec_grow_factor() >= 1,
    ensures
        sum_of(w_factors(s)) >= s.len(),
    decreases s.len(),
{
    if s.len() > 0 {
        assert(forall|i: int| 0 <= i < s.len() - 1 ==> s.drop_last()[i] == #[trigger] s[i]);
        lemma_w_factor_sum_ge_len(s.drop_last());
        assert(s.last() == s[s.len() - 1]);
        assert(w_factors(s).drop_last() =~= w_factors(s.drop_last()));
    }
}

/// With every factor at least one, the height factor sum covers the count.
proof fn lemma_h_factor_sum_ge_len(s: Seq<KaolinNode>)
    requires
        forall|i: int|
            0 <= i < s.len() ==> (#[trigger] s[i]).spec_sizing_h().spec_grow_factor() >= 1,
    ensures
        sum_of(h_factors(s)) >= s.len(),
    decreases s.len(),
{
    if s.len() > 0 {
        assert(forall|i: int| 0 <= i < s.len() - 1 ==> s.drop_last()[i] == #[trigger] s[i]);
        lemma_h_factor_sum_ge_len(s.drop_last());
        assert(s.last() == s[s.len() - 1]);
        assert(h_factors(s).drop_last() =~= h_factors(s.drop_last()));
    }
}

/// One equal tier taking exact proportional shares: every child is growable
/// in width with headroom for the whole budget, all start at the same width,
/// and the truncating shares are positive and exhaust the budget exactly.
pub open spec fn exact_w_split(s: Seq<KaolinNode>, budget: int) -> bool {
    &&& s.len() > 0
    &&& budget >= 0
    &&& all_growable_w_unbounded(s, budget)
    &&& forall|i: int| 0 <= i < s.len() ==> (#[trigger] s[i]).spec_width() == s[0].spec_width()
    &&& forall|i: int|
        0 <= i < s.len() ==> crate::elements::tdiv(
            budget * (#[trigger] s[i]).spec_sizing_w().spec_grow_factor(),
            sum_of(w_factors(s)),
        ) >= 1
    &&& sum_shares(budget, w_factors(s), sum_of(w_factors(s))) == budget
}

/// One equal tier taking exact proportional height shares.
pub open spec fn exact_h_split(s: Seq<KaolinNode>, budget: int) -> bool {
    &&& s.len() > 0
    &&& budget >= 0
    &&& all_growable_h_unbounded(s, budget)
    &&& forall|i: int| 0 <= i < s.len() ==> (#[trigger] s[i]).spec_height() == s[0].spec_height()
    &&& forall|i: int|
        0 <= i < s.len() ==> crate::elements::tdiv(
            budget * (#[trigger] s[i]).spec_sizing_h().spec_grow_factor(),
            sum_of(h_factors(s)),
        ) >= 1
    &&& sum_shares(budget, h_factors(s), sum_of(h_factors(s))) == budget
}

/// Distributes `budget` extra main-axis width (negative: a deficit) over the
/// children: repeatedly levels the currently smallest growable (respectively
/// largest shrinkable) children, weighted by grow factor (respectively split
/// evenly), until the budget is exhausted, nobody is eligible, or the
/// remaining eligible weights are zero. A truncating share that rounds to
/// zero is raised to one unit so the remainder is still distributed. Returns
/// the undistributed rest, which carries the budget's sign; the width sum
/// moves by exactly the spent part, and a non-negative budget over children
/// that can each absorb it whole is spent completely.
fn distribute_main_widths(children: &mut Vec<KaolinNode>, budget: i64) -> (left: i64)
    requires
        old(children)@.len() <= MAX_CHILDREN,
        -0x40_0000_0000_0000i64 <= budget <= 0x40_0000_0000_0000i64,
    ensures
        final(children)@.len() == old(children)@.len(),
        forall|i: int|
            0 <= i < final(children)@.len() ==> width_pass_child(
                old(children)@[i],
                #[trigger] final(children)@[i],
            ),
        sum_widths(final(children)@) == sum_widths(old(children)@) + budget - left,
        budget >= 0 ==> 0 <= left <= budget && forall|i: int|
            0 <= i < final(children)@.len() ==> (#[trigger] final(children)@[i]).spec_width()
                >= old(children)@[i].spec_width(),
        budget < 0 ==> budget <= left <= 0 && forall|i: int|
            0 <= i < final(children)@.len() ==> (#[trigger] final(children)@[i]).spec_width()
                <= old(children)@[i].spec_width(),
        budget >= 0 && old(children)@.len() > 0 && all_growable_w_unbounded(
            old(children)@,
            budget as int,
        ) ==> left == 0,
        budget < 0 && old(children)@.len() > 0 && all_shrinkable_unbounded(
            old(children)@,
            budget as int,
        ) ==> left == 0,
        budget < 0 ==> forall|i: int|
            0 <= i < final(children)@.len() ==> ((#[trigger] old(children)@[i]).spec_shrinkable()
                && !final(children)@[i].spec_shrinkable()) ==> final(children)@[i].spec_width()
                == old(children)@[i].spec_sizing_w().spec_min(),
        exact_w_split(old(children)@, budget as int) ==> forall|i: int|
            0 <= i < final(children)@.len() ==> (#[trigger] final(children)@[i]).spec_width()
                == old(children)@[i].spec_width() + crate::elements::tdiv(
                budget as int * old(children)@[i].spec_sizing_w().spec_grow_factor(),
                sum_of(w_factors(old(children)@)),
            ),
{
    let ghost s0 = children@;
    let n = children.len();
    harvest_node_sanity(children);
    let ghost unb = budget >= 0 && n > 0 && all_growable_w_unbounded(s0, budget as int);
    let ghost shr = budget < 0 && n > 0 && all_shrinkable_unbounded(s0, budget as int);
    let ghost exq = exact_w_split(s0, budget as int);
    proof {
        if exq {
            // with every share at least one unit, the budget is positive
            assert(crate::elements::tdiv(
                budget as int * s0[0].spec_sizing_w().spec_grow_factor(),
                sum_of(w_factors(s0)),
            ) >= 1);
            lemma_w_factor_sum_ge_len(s0);
            assert(sum_of(w_factors(s0)) >= 1);
            assert(budget >= 1) by {
                if budget as int * s0[0].spec_sizing_w().spec_grow_factor() <= 0 {
                    assert((budget as int * s0[0].spec_sizing_w().spec_grow_factor()) / sum_of(
                        w_factors(s0),
                    ) >= 0 ==> crate::elements::tdiv(
                        budget as int * s0[0].spec_sizing_w().spec_grow_factor(),
                        sum_of(w_factors(s0)),
                    ) <= 0);
                    assert(-(budget as int * s0[0].spec_sizing_w().spec_grow_factor()) / sum_of(
                        w_factors(s0),
                    ) >= 0) by (nonlinear_arith)
                        requires
                            -(budget as int * s0[0].spec_sizing_w().spec_grow_factor()) >= 0,
                            sum_of(w_factors(s0)) >= 1,
                    ;
                    assert(false);
                } else {
                    assert(budget as int * s0[0].spec_sizing_w().spec_grow_factor() >= 1);
                    assert(budget >= 1) by (nonlinear_arith)
                        requires
                            budget as int * s0[0].spec_sizing_w().spec_grow_factor() >= 1,
                            0 <= s0[0].spec_sizing_w().spec_grow_factor()
                                <= crate::style::sizing::MAX_FACTOR,
                    ;
                }
            }
        }
    }
    let mut remaining = budget;
    loop
        invariant
            children@.len() == n == s0.len() <= MAX_CHILDREN,
            s0 == old(children)@,
            -0x40_0000_0000_0000i64 <= budget <= 0x40_0000_0000_0000i64,
            budget >= 0 ==> 0 <= remaining,
            budget < 0 ==> remaining <= 0,
            -0x40_0000_0000_0000i64 <= remaining <= 0x40_0000_0000_0000i64,
            forall|i: int|
                0 <= i < n ==> width_pass_child(s0[i], #[trigger] children@[i]),
            forall|i: int| 0 <= i < n ==> node_w_sane(#[trigger] s0[i]),
            sum_widths(children@) == sum_widths(s0) + budget - remaining,
            budget >= 0 ==> 0 <= remaining <= budget && forall|i: int|
                0 <= i < n ==> (#[trigger] children@[i]).spec_width() >= s0[i].spec_width(),
            budget < 0 ==> budget <= remaining <= 0 && forall|i: int|
                0 <= i < n ==> (#[trigger] children@[i]).spec_width() <= s0[i].spec_width(),
            unb == (budget >= 0 && n > 0 && all_growable_w_unbounded(s0, budget as int)),
            unb ==> forall|i: int|
                0 <= i < n ==> (#[trigger] children@[i]).spec_growable_width(),
            unb ==> forall|i: int|
                0 <= i < n ==> (#[trigger] children@[i]).spec_width() <= s0[i].spec_width() + (
                budget - remaining),
            shr == (budget < 0 && n > 0 && all_shrinkable_unbounded(s0, budget as int)),
            shr ==> forall|i: int| 0 <= i < n ==> (#[trigger] children@[i]).spec_shrinkable(),
            shr ==> forall|i: int|
                0 <= i < n ==> (#[trigger] children@[i]).spec_width() >= s0[i].spec_width() + (
                budget - remaining),
            budget < 0 ==> forall|i: int|
                0 <= i < n ==> ((#[trigger] s0[i]).spec_shrinkable() && !children@[
                    i
                ].spec_shrinkable()) ==> children@[i].spec_width()
                    == s0[i].spec_sizing_w().spec_min(),
            exq == exact_w_split(s0, budget as int),
            exq ==> budget >= 1,
            exq ==> ((remaining == budget && children@ == s0) || (remaining == 0 && forall|k: int|
                0 <= k < n ==> (#[trigger] children@[k]).spec_width() == s0[k].spec_width()
                    + crate::elements::tdiv(
                    budget as int * s0[k].spec_sizing_w().spec_grow_factor(),
                    sum_of(w_factors(s0)),
                ))),
        ensures
            children@.len() == n,
            forall|i: int|
                0 <= i < n ==> width_pass_child(s0[i], #[trigger] children@[i]),
            sum_widths(children@) == sum_widths(s0) + budget - remaining,
            budget >= 0 ==> 0 <= remaining <= budget && forall|i: int|
                0 <= i < n ==> (#[trigger] children@[i]).spec_width() >= s0[i].spec_width(),
            budget < 0 ==> budget <= remaining <= 0 && forall|i: int|
                0 <= i < n ==> (#[trigger] children@[i]).spec_width() <= s0[i].spec_width(),
            unb ==> remaining == 0,
            shr ==> remaining == 0,
            budget < 0 ==> forall|i: int|
                0 <= i < n ==> ((#[trigger] s0[i]).spec_shrinkable() && !children@[
                    i
                ].spec_shrinkable()) ==> children@[i].spec_width()
                    == s0[i].spec_sizing_w().spec_min(),
            exq ==> forall|k: int|
                0 <= k < n ==> (#[trigger] children@[k]).spec_width() == s0[k].spec_width()
                    + crate::elements::tdiv(
                    budget as int * s0[k].spec_sizing_w().spec_grow_factor(),
                    sum_of(w_factors(s0)),
                ),
        decreases
                (if remaining >= 0 {
                    remaining as int
                } else {
                    -(remaining as int)
                }),
                (if remaining >= 0 {
                    count_growable_w(children@)
                } else {
                    count_shrinkable(children@)
                }),
    {
        if remaining == 0 {
            break;
        }
        let shrinking = remaining < 0;
        let extreme: i64;
        let bound_mag: i64;
        let f_total: i64;
        if shrinking {
            let pair = crate::elements::get_biggest_widths(children);
            extreme = pair.0;
            let diff = extreme - pair.1;
            let mag = if -remaining < diff {
                -remaining
            } else {
                diff
            };
            bound_mag = mag;
            f_total = crate::elements::total_shrinkable_at(children, extreme);
        } else {
            let pair = crate::elements::get_smallest_widths(children);
            extreme = pair.0;
            if extreme == crate::elements::NO_SIZE {
                proof {
                    if unb {
                        lemma_min_growable_w_le(children@, 0);
                    }
                }
                break;
            }
            let diff = pair.1 - extreme;
            bound_mag = if remaining < diff {
                remaining
            } else {
                diff
            };
            f_total = crate::elements::total_grow_factor_w_at(children, extreme);
        }
        proof {
            if exq {
                // the single equal tier: the common width is the extreme,
                // nothing lies above it, and the step bound is the budget
                assert(children@ == s0);
                assert(remaining == budget);
                let w0 = s0[0].spec_width();
                lemma_min_growable_w_le(children@, 0);
                lemma_min_growable_w_attained(children@);
                let j = choose|j: int|
                    0 <= j < children@.len() && (#[trigger] children@[j]).spec_growable_width()
                        && children@[j].spec_width() == crate::elements::min_growable_width(
                        children@,
                    );
                assert(s0[j].spec_width() == w0);
                assert(extreme as int == w0);
                lemma_min_above_all_equal_w(children@, extreme as int);
                assert(s0[0].spec_sizing_w().spec_max() >= w0 + budget);
                assert(budget + extreme as int <= MAX_DIM);
                assert(bound_mag == remaining);
                lemma_all_at_w_factor_sum(children@, extreme as int);
                assert(f_total as int == sum_of(w_factors(s0)));
                assert(w_factors(s0).take(0) =~= Seq::<int>::empty());
            }
        }
        if f_total <= 0 {
            proof {
                if unb {
                    lemma_min_growable_w_attained(children@);
                    let j = choose|j: int|
                        0 <= j < children@.len() && (
                        #[trigger] children@[j]).spec_growable_width() && children@[j].spec_width()
                            == crate::elements::min_growable_width(children@);
                    lemma_factor_sum_w_lower(children@, j, extreme as int);
                }
                if shr {
                    assert(children@[0].spec_shrinkable());
                    assert(forall|k: int|
                        0 <= k < n ==> (#[trigger] children@[k]).spec_width() >= 0);
                    lemma_max_shrinkable_attained(children@);
                    let j = choose|j: int|
                        0 <= j < children@.len() && (#[trigger] children@[j]).spec_shrinkable()
                            && children@[j].spec_width() == crate::elements::max_shrinkable_width(
                            children@,
                        );
                    lemma_count_at_lower(children@, j, extreme as int);
                }
            }
            break;
        }
        let mut total_change: i64 = 0;
        let ghost s_iter = children@;
        let ghost rem0 = remaining as int;
        let ghost count0 = if shrinking {
            count_shrinkable(s_iter)
        } else {
            count_growable_w(s_iter)
        };
        let ghost fspec = if shrinking {
            crate::elements::count_shrinkable_at(s_iter, extreme as int)
        } else {
            crate::elements::sum_grow_factors_w_at(s_iter, extreme as int)
        };
        let mut i: usize = 0;
        while i < n
            invariant
                children@.len() == n == s0.len() <= MAX_CHILDREN,
                s_iter.len() == n,
                s0 == old(children)@,
                0 <= i <= n,
                0 < f_total,
                f_total as int == fspec,
                fspec == (if shrinking {
                    crate::elements::count_shrinkable_at(s_iter, extreme as int)
                } else {
                    crate::elements::sum_grow_factors_w_at(s_iter, extreme as int)
                }),
                -0x40_0000_0000_0000i64 <= remaining <= 0x40_0000_0000_0000i64,
                0 <= bound_mag <= crate::elements::NO_SIZE,
                rem0 == remaining,
                remaining != 0,
                shrinking == (remaining < 0),
                !shrinking ==> 0 <= total_change <= remaining,
                shrinking ==> remaining <= total_change <= 0,
                forall|k: int|
                    0 <= k < n ==> width_pass_child(s0[k], #[trigger] children@[k]),
                forall|k: int| 0 <= k < n ==> node_w_sane(#[trigger] s0[k]),
                forall|k: int| i <= k < n ==> children@[k] == s_iter[k],
                sum_widths(children@) == sum_widths(s_iter) + total_change,
                forall|k: int|
                    0 <= k < n ==> (!shrinking ==> (#[trigger] children@[k]).spec_width()
                        >= s_iter[k].spec_width()) && (shrinking ==> children@[k].spec_width()
                        <= s_iter[k].spec_width()),
                forall|k: int|
                    0 <= k < n ==> (!shrinking ==> s_iter[k].spec_width()
                        >= s0[k].spec_width()) && (shrinking ==> (#[trigger] s_iter[k]).spec_width()
                        <= s0[k].spec_width()),
                (if shrinking {
                    count_shrinkable(children@)
                } else {
                    count_growable_w(children@)
                }) <= count0,
                total_change != 0 || (if shrinking {
                    count_shrinkable(children@)
                } else {
                    count_growable_w(children@)
                }) < count0 || fspec - (if shrinking {
                    crate::elements::count_shrinkable_at(s_iter.take(i as int), extreme as int)
                } else {
                    crate::elements::sum_grow_factors_w_at(s_iter.take(i as int), extreme as int)
                }) >= 1,
                unb ==> forall|k: int|
                    0 <= k < n ==> (#[trigger] children@[k]).spec_growable_width(),
                unb ==> forall|k: int|
                    0 <= k < n ==> (#[trigger] children@[k]).spec_width() <= s0[k].spec_width()
                        + (budget - rem0) + total_change,
                unb == (budget >= 0 && n > 0 && all_growable_w_unbounded(s0, budget as int)),
                unb ==> !shrinking,
                shr == (budget < 0 && n > 0 && all_shrinkable_unbounded(s0, budget as int)),
                shr ==> shrinking,
                budget < 0 ==> shrinking,
                exq == exact_w_split(s0, budget as int),
                exq ==> s_iter == s0 && rem0 == budget as int && extreme as int
                    == s0[0].spec_width() && bound_mag == budget && fspec == sum_of(
                    w_factors(s0),
                ),
                exq ==> forall|k: int|
                    0 <= k < i ==> (#[trigger] children@[k]).spec_width() == s0[k].spec_width()
                        + crate::elements::tdiv(
                        budget as int * s0[k].spec_sizing_w().spec_grow_factor(),
                        sum_of(w_factors(s0)),
                    ),
                exq ==> total_change as int == sum_shares(
                    budget as int,
                    w_factors(s0).take(i as int),
                    sum_of(w_factors(s0)),
                ),
                shr ==> forall|k: int|
                    0 <= k < n ==> (#[trigger] children@[k]).spec_shrinkable(),
                shr ==> forall|k: int|
                    0 <= k < n ==> (#[trigger] children@[k]).spec_width() >= s0[k].spec_width()
                        + (budget - rem0) + total_change,
                budget < 0 ==> forall|k: int|
                    0 <= k < n ==> ((#[trigger] s0[k]).spec_shrinkable() && !children@[
                        k
                    ].spec_shrinkable()) ==> children@[k].spec_width()
                        == s0[k].spec_sizing_w().spec_min(),
                -0x40_0000_0000_0000i64 <= budget <= 0x40_0000_0000_0000i64,
            decreases n - i,
        {
            let eligible = {
                let c = &children[i];
                if shrinking {
                    c.shrinkable && c.current_width == extreme
                } else {
                    c.growable_width && c.current_width == extreme
                }
            };
            proof {
                crate::elements::lemma_take_snoc(s_iter, i as int);
            }
            if !eligible {
                proof {
                    if exq {
                        assert(false);
                    }
                }
            }
            if eligible {
                let ghost pre = children@;
                let mut nd = children.remove(i);
                proof {
                    use_type_invariant(&nd);
                }
                let factor: i64;
                let delta: i64;
                if shrinking {
                    let slack = total_change - remaining;
                    factor = 1;
                    let raw = share_of(bound_mag, 1, f_total);
                    let share = if raw == 0 {
                        1
                    } else {
                        raw
                    };
                    let mag = if share < slack {
                        share
                    } else {
                        slack
                    };
                    delta = -mag;
                } else {
                    let slack = remaining - total_change;
                    factor = nd.sizing_w.get_grow_factor();
                    let raw = share_of(bound_mag, factor, f_total);
                    let share = if raw == 0 && factor > 0 {
                        1
                    } else {
                        raw
                    };
                    delta = if share < slack {
                        share
                    } else {
                        slack
                    };
                    proof {
                        if exq {
                            // the exact proportional share fits in the slack
                            lemma_factors_len(s0);
                            lemma_factors_index(s0, i as int);
                            assert(w_factors(s0).take(i as int + 1).drop_last() =~= w_factors(
                                s0,
                            ).take(i as int));
                            assert(w_factors(s0).take(i as int + 1).last() == w_factors(s0)[
                                i as int
                            ]);
                            assert(factor as int == s0[i as int].spec_sizing_w().spec_grow_factor());
                            assert(raw as int == crate::elements::tdiv(
                                budget as int * factor as int,
                                sum_of(w_factors(s0)),
                            ));
                            assert(raw >= 1);
                            assert forall|k: int|
                                0 <= k < w_factors(s0).len() implies #[trigger] w_factors(s0)[k]
                                >= 0 by {
                                lemma_factors_index(s0, k);
                            }
                            lemma_sum_shares_prefix(budget as int, w_factors(s0), sum_of(
                                w_factors(s0),
                            ), i as int + 1);
                            assert(sum_shares(budget as int, w_factors(s0).take(i as int + 1),
                                sum_of(w_factors(s0))) <= budget);
                            assert(raw as int <= slack);
                            assert(delta == raw);
                        }
                    }
                }
                if delta != 0 || factor == 0 {
                    let ghost nd0 = pre[i as int];
                    let applied = nd.grow_width(delta);
                    let ghost ndg = nd;
                    proof {
                        if shrinking {
                            if shr {
                                // the deficit never outruns any child's
                                // headroom above its minimum, so the clamp
                                // cannot bind
                                assert(nd0.spec_sizing_w() == s0[i as int].spec_sizing_w());
                                assert(nd0.spec_width() >= s0[i as int].spec_width() + (budget
                                    - rem0) + total_change);
                                assert(delta >= -(total_change - rem0));
                                assert(nd0.spec_width() + delta >= s0[i as int].spec_width()
                                    + budget);
                                assert(s0[i as int].spec_sizing_w().spec_min()
                                    <= s0[i as int].spec_width() + budget);
                                assert(nd0.spec_sizing_w().spec_clamped(
                                    nd0.spec_width() + delta,
                                ) == nd0.spec_width() + delta);
                                assert(delta <= -1);
                                assert(applied == delta);
                                assert(ndg.spec_shrinkable());
                            }
                            if budget < 0 && !ndg.spec_shrinkable() {
                                // a child dropped from the shrink pass sits
                                // at its minimum
                                assert(ndg.spec_width()
                                    == nd0.spec_sizing_w().spec_min());
                            }
                            assert(delta <= applied <= 0);
                        } else {
                            if unb {
                                // the budget never outruns any child's
                                // headroom, so the clamp cannot bind
                                assert(nd0.spec_sizing_w() == s0[i as int].spec_sizing_w());
                                assert(nd0.spec_width() <= s0[i as int].spec_width() + (budget
                                    - rem0) + total_change);
                                assert(delta <= rem0 - total_change);
                                assert(nd0.spec_width() + delta <= s0[i as int].spec_width()
                                    + budget);
                                assert(s0[i as int].spec_sizing_w().spec_max()
                                    >= s0[i as int].spec_width() + budget);
                                assert(nd0.spec_sizing_w().spec_clamped(
                                    nd0.spec_width() + delta,
                                ) == nd0.spec_width() + delta);
                                assert(delta >= 1);
                                assert(applied == delta);
                                assert(nd.spec_growable_width());
                            }
                            assert(0 <= applied <= delta);
                        }
                        if applied == 0 {
                            assert(if shrinking {
                                !nd.spec_shrinkable()
                            } else {
                                !nd.spec_growable_width()
                            });
                        }
                    }
                    children.insert(i, nd);
                    total_change = total_change + applied;
                    proof {
                        assert(children@ =~= pre.update(i as int, ndg));
                        lemma_sum_widths_update(pre, i as int, ndg);
                        lemma_counts_update(pre, i as int, ndg);
                        if exq {
                            assert(ndg.spec_width() == s0[i as int].spec_width()
                                + crate::elements::tdiv(
                                budget as int * s0[i as int].spec_sizing_w().spec_grow_factor(),
                                sum_of(w_factors(s0)),
                            ));
                            assert(total_change as int == sum_shares(
                                budget as int,
                                w_factors(s0).take(i as int + 1),
                                sum_of(w_factors(s0)),
                            ));
                        }
                        if unb {
                            assert(ndg.spec_growable_width());
                            assert(children@ == pre.update(i as int, ndg));
                            assert(forall|k: int|
                                0 <= k < n ==> (#[trigger] children@[k]).spec_growable_width());
                            assert(forall|k: int|
                                0 <= k < n ==> (#[trigger] children@[k]).spec_width()
                                    <= s0[k].spec_width() + (budget - rem0) + total_change);
                        }
                        if applied == 0 && total_change == 0 {
                            // this tier member could take nothing: its flag
                            // dropped and the eligible set shrank
                            assert(if shrinking {
                                !ndg.spec_shrinkable()
                            } else {
                                !ndg.spec_growable_width()
                            });
                            assert((if shrinking {
                                count_shrinkable(children@)
                            } else {
                                count_growable_w(children@)
                            }) < count0);
                        }
                    }
                } else {
                    children.insert(i, nd);
                    proof {
                        assert(children@ =~= pre.update(i as int, nd));
                        assert(children@ =~= pre);
                        // the slack is exhausted, so the whole budget of this
                        // sweep is already spent
                        assert(total_change == rem0);
                        if exq {
                            assert(false);
                        }
                    }
                }
            }
            i = i + 1;
        }
        proof {
            assert(s_iter.take(n as int) =~= s_iter);
            if exq {
                lemma_factors_len(s0);
                assert(w_factors(s0).take(n as int) =~= w_factors(s0));
            }
        }
        if total_change == 0 {
            proof {
                lemma_counts_nonneg(children@);
                assert((if shrinking {
                    count_shrinkable(children@)
                } else {
                    count_growable_w(children@)
                }) < count0);
                if unb {
                    lemma_count_growable_w_full(children@);
                    lemma_count_growable_w_full(s_iter);
                    assert(false);
                }
                if shr {
                    lemma_count_shrinkable_full(children@);
                    lemma_count_shrinkable_full(s_iter);
                    assert(false);
                }
            }
        } else {
            remaining = remaining - total_change;
            proof {
                if exq {
                    assert(total_change as int == sum_shares(
                        budget as int,
                        w_factors(s0),
                        sum_of(w_factors(s0)),
                    ));
                    assert(total_change == budget);
                    assert(remaining == 0);
                }
            }
        }
    }
    remaining
}

/// The unbound content height of a container: along a horizontal main axis
/// the tallest child plus vertical padding, along a vertical main axis the
/// children stacked with gaps plus vertical padding.
pub open spec fn spec_flex_fit_height(f: FlexBox) -> int {
    if f.spec_style().spec_has_horizontal_layout() {
        crate::elements::max_height_of(f.spec_children()) + f.spec_style().padding.spec_y()
    } else {
        crate::elements::sum_heights(f.spec_children()) + gaps_of(f.spec_children())
            * f.spec_style().layout.spec_gap() + f.spec_style().padding.spec_y()
    }
}

/// The unbound content height of an element once its width is final: a
/// container stacks or maximizes its children; a text run wraps.
pub open spec fn spec_fit_height_unbound<M: TextMeasure>(
    m: &M,
    e: KaolinElement,
    final_width: int,
) -> int {
    match e {
        KaolinElement::Flex(f) => spec_flex_fit_height(f),
        KaolinElement::Text(t) => crate::elements::text::lines_height_sum(
            m,
            t.spec_content(),
            t.spec_style(),
            wrap_result(m, t.spec_content(), t.spec_style(), t.spec_word_starts(), final_width),
        ),
    }
}

/// True when a node's height has been re-fitted from its final width with
/// `m`: the height is the element's content height clamped to the node's
/// bounds, and a text element holds exactly the wrap's line spans.
pub open spec fn child_refitted<M: TextMeasure>(m: &M, c: KaolinNode) -> bool {
    &&& c.spec_height() == c.spec_sizing_h().spec_clamped(
        spec_fit_height_unbound(m, c.spec_element(), c.spec_width()),
    )
    &&& (c.spec_element() matches KaolinElement::Text(t) ==> t.spec_lines() == wrap_result(
        m,
        t.spec_content(),
        t.spec_style(),
        t.spec_word_starts(),
        c.spec_width(),
    ))
}

/// True when `ne` is `oe` with only its interior layout state (wrapped lines,
/// nested child sizes and positions) changed: the element kind, a text run's
/// content, style and word starts, and a container's style and child count
/// are kept.
pub open spec fn same_element_surface(oe: KaolinElement, ne: KaolinElement) -> bool {
    match oe {
        KaolinElement::Flex(of) => ne matches KaolinElement::Flex(nf) && nf.spec_style()
            == of.spec_style() && nf.spec_children().len() == of.spec_children().len(),
        KaolinElement::Text(ot) => ne matches KaolinElement::Text(nt) && nt.spec_content()
            == ot.spec_content() && nt.spec_style() == ot.spec_style() && nt.spec_word_starts()
            == ot.spec_word_starts(),
    }
}

impl FlexBox {
    /// The unbound height this container needs for its children.
    pub fn fit_height_unbound(&self) -> (r: i64)
        requires
            self.spec_children().len() <= MAX_CHILDREN,
        ensures
            r == spec_flex_fit_height(*self),
    {
        let pad = self.style.padding.y();
        if self.style.has_horizontal_layout() {
            crate::elements::max_height(&self.children) + pad
        } else {
            let cum = crate::elements::cumulative_height(&self.children);
            let n_gaps = gaps(&self.children);
            let g = self.style.layout.get_gap();
            let ng: i64 = n_gaps as i64;
            proof {
                assert(0 <= ng * g <= 0x1_0000i64 * MAX_DIM) by (nonlinear_arith)
                    requires
                        0 <= ng <= 0x1_0000i64,
                        0 <= g <= MAX_DIM,
                ;
            }
            cum + ng * g + pad
        }
    }
}

impl KaolinNode {
    /// Re-fits the height of the node from its now-final width: containers
    /// measure their children, text wraps against the width. The result is
    /// clamped to the node's own height bounds.
    pub fn fit_height<M: TextMeasure>(self, m: &M) -> (r: Self)
        ensures
            r.spec_element() == self.spec_element() || (self.spec_element() matches
                KaolinElement::Text(_)),
            same_element_surface(self.spec_element(), r.spec_element()),
            r.spec_width() == self.spec_width(),
            r.spec_sizing_w() == self.spec_sizing_w(),
            r.spec_sizing_h() == self.spec_sizing_h(),
            r.spec_growable_width() == self.spec_growable_width(),
            r.spec_growable_height() == self.spec_growable_height(),
            r.spec_shrinkable() == self.spec_shrinkable(),
            r.spec_x() == self.spec_x(),
            r.spec_y() == self.spec_y(),
            crate::elements::node_height(r) == crate::elements::node_height(self),
            child_refitted(m, r),
            self.spec_element() matches KaolinElement::Flex(_) ==> r.spec_element()
                == self.spec_element(),
    {
        proof {
            use_type_invariant(&self);
            use_type_invariant(&self.sizing_h);
        }
        let KaolinNode {
            element,
            sizing_w,
            sizing_h,
            growable_width,
            growable_height,
            shrinkable,
            current_width,
            current_height,
            x,
            y,
        } = self;
        let ghost e0 = element;
        let (element, unbound) = match element {
            KaolinElement::Flex(f) => {
                let h = f.fit_height_unbound();
                (KaolinElement::Flex(f), h)
            },
            KaolinElement::Text(mut t) => {
                let h = t.wrap_text(m, current_width);
                (KaolinElement::Text(t), h)
            },
        };
        let new_height = sizing_h.clamped(unbound);
        let r = KaolinNode {
            element,
            sizing_w,
            sizing_h,
            growable_width,
            growable_height,
            shrinkable,
            current_width,
            current_height: new_height,
            x,
            y,
        };
        proof {
            match e0 {
                KaolinElement::Flex(_) => {},
                KaolinElement::Text(_) => {
                    assert(crate::elements::elem_height(r.element) == 0);
                    assert(crate::elements::elem_height(e0) == 0);
                },
            }
            assert(crate::elements::node_height(r) == crate::elements::node_height(self));
        }
        r
    }
}

/// Width sums agree on sequences with pointwise equal widths.
pub proof fn lemma_sum_widths_congruence(s1: Seq<KaolinNode>, s2: Seq<KaolinNode>)
    requires
        s1.len() == s2.len(),
        forall|i: int|
            0 <= i < s1.len() ==> s1[i].spec_width() == (#[trigger] s2[i]).spec_width(),
    ensures
        sum_widths(s1) == sum_widths(s2),
    decreases s1.len(),
{
    if s1.len() > 0 {
        assert(forall|i: int|
            0 <= i < s1.len() - 1 ==> s1.drop_last()[i] == s1[i] && (#[trigger] s2.drop_last()[i])
                == s2[i]);
        lemma_sum_widths_congruence(s1.drop_last(), s2.drop_last());
        assert(s1.last() == s1[s1.len() - 1]);
        assert(s2.last() == s2[s1.len() - 1]);
    }
}

/// The width a cross-axis child ends with: grown or shrunk once to the
/// container's inner width when its flags allow, else unchanged.
pub open spec fn cross_width_result(oc: KaolinNode, container_width: int, pad_x: int) -> int {
    let rem = container_width - oc.spec_width() - pad_x;
    if (rem > 0 && oc.spec_growable_width()) || (rem < 0 && oc.spec_shrinkable()) {
        oc.spec_sizing_w().spec_clamped(oc.spec_width() + rem)
    } else {
        oc.spec_width()
    }
}

/// What the whole width pass does to one child, recursively: its sizing and
/// position are untouched, its flags only ever drop, its height is re-fitted
/// from its final width, a text run keeps its content, and a nested
/// container has been laid out against the child's final width in turn.
pub open spec fn width_grown_child<M: TextMeasure>(m: &M, oc: KaolinNode, nc: KaolinNode) -> bool
    decreases oc,
{
    &&& nc.spec_sizing_w() == oc.spec_sizing_w()
    &&& nc.spec_sizing_h() == oc.spec_sizing_h()
    &&& nc.spec_x() == oc.spec_x()
    &&& nc.spec_y() == oc.spec_y()
    &&& (nc.spec_growable_width() ==> oc.spec_growable_width())
    &&& (nc.spec_shrinkable() ==> oc.spec_shrinkable())
    &&& nc.spec_growable_height() == oc.spec_growable_height()
    &&& (nc.spec_width() != oc.spec_width() ==> oc.spec_sizing_w().spec_min() <= nc.spec_width()
        <= oc.spec_sizing_w().spec_max())
    &&& crate::elements::node_height(nc) == crate::elements::node_height(oc)
    &&& child_refitted(m, nc)
    &&& match oc.spec_element() {
        KaolinElement::Text(ot) => nc.spec_element() matches KaolinElement::Text(nt)
            && nt.spec_content() == ot.spec_content() && nt.spec_style() == ot.spec_style()
            && nt.spec_word_starts() == ot.spec_word_starts(),
        KaolinElement::Flex(of) => nc.spec_element() matches KaolinElement::Flex(nf)
            && width_pass_rel(m, of, nf, nc.spec_width()),
    }
}

/// What the width growth pass guarantees of a container laid out against the
/// final width `w`: child by child recursively; along a horizontal main axis
/// the children's width sum moves from its old value towards the budget
/// without overshooting, and is spent completely when every child can absorb
/// the whole budget; along a vertical main axis every child's width is
/// pinned exactly.
pub open spec fn width_pass_rel<M: TextMeasure>(m: &M, f1: FlexBox, f2: FlexBox, w: int) -> bool
    decreases f1,
{
    &&& f2.spec_style() == f1.spec_style()
    &&& f2.spec_children().len() == f1.spec_children().len()
    &&& forall|i: int|
        0 <= i < f2.spec_children().len() ==> width_grown_child(
            m,
            f1.spec_children()[i],
            #[trigger] f2.spec_children()[i],
        )
    &&& f1.spec_style().spec_has_horizontal_layout() ==> ({
        let budget = w - f1.spec_style().padding.spec_x() - sum_widths(f1.spec_children())
            - gaps_of(f1.spec_children()) * f1.spec_style().layout.spec_gap();
        &&& budget >= 0 ==> sum_widths(f1.spec_children()) <= sum_widths(f2.spec_children())
            <= sum_widths(f1.spec_children()) + budget
        &&& budget < 0 ==> sum_widths(f1.spec_children()) + budget <= sum_widths(
            f2.spec_children(),
        ) <= sum_widths(f1.spec_children())
        &&& (budget >= 0 && f1.spec_children().len() > 0 && all_growable_w_unbounded(
            f1.spec_children(),
            budget,
        )) ==> sum_widths(f2.spec_children()) == sum_widths(f1.spec_children()) + budget
        &&& (budget < 0 && f1.spec_children().len() > 0 && all_shrinkable_unbounded(
            f1.spec_children(),
            budget,
        )) ==> sum_widths(f2.spec_children()) == sum_widths(f1.spec_children()) + budget
        &&& budget < 0 ==> forall|i: int|
            0 <= i < f2.spec_children().len() ==> (((#[trigger] f1.spec_children()[
                i
            ]).spec_shrinkable() && !f2.spec_children()[i].spec_shrinkable())
                ==> f2.spec_children()[i].spec_width()
                == f1.spec_children()[i].spec_sizing_w().spec_min())
        &&& exact_w_split(f1.spec_children(), budget) ==> forall|i: int|
            0 <= i < f2.spec_children().len() ==> (#[trigger] f2.spec_children()[i]).spec_width()
                == f1.spec_children()[i].spec_width() + crate::elements::tdiv(
                budget * f1.spec_children()[i].spec_sizing_w().spec_grow_factor(),
                sum_of(w_factors(f1.spec_children())),
            )
    })
    &&& !f1.spec_style().spec_has_horizontal_layout() ==> forall|i: int|
        0 <= i < f2.spec_children().len() ==> (#[trigger] f2.spec_children()[i]).spec_width()
            == cross_width_result(
            f1.spec_children()[i],
            w,
            f1.spec_style().padding.spec_x(),
        ) && !f2.spec_children()[i].spec_growable_width()
}

impl FlexBox {
    /// Grows (or shrinks) the widths of the children to fill this container's
    /// now-final width, recurses into child containers, and re-fits every
    /// child's height from its final width (text wraps here).
    ///
    /// Along a horizontal main axis the children share the free width by the
    /// leveling distribution; along a vertical main axis each child is grown
    /// or shrunk once to the inner width on its own. The width sum of the
    /// children never overshoots the available budget.
    pub fn grow_children_width<M: TextMeasure>(self, m: &M, current_width: i64) -> (r: Self)
        requires
            self.spec_children().len() <= MAX_CHILDREN,
            0 <= current_width <= MAX_DIM,
        ensures
            crate::elements::flex_height(r) == crate::elements::flex_height(self),
            width_pass_rel(m, self, r, current_width as int),
        decreases crate::elements::flex_height(self),
    {
        let ghost self0 = self;
        let FlexBox { style, mut children } = self;
        let ghost s0 = children@;
        let n = children.len();
        if style.has_horizontal_layout() {
            let cum = cumulative_width(&children);
            let n_gaps = gaps(&children);
            let g = style.layout.get_gap();
            let ng: i64 = n_gaps as i64;
            proof {
                assert(0 <= ng * g <= 0x1_0000i64 * MAX_DIM) by (nonlinear_arith)
                    requires
                        0 <= ng <= 0x1_0000i64,
                        0 <= g <= MAX_DIM,
                ;
            }
            let pad = style.padding.x();
            let budget = current_width - pad - cum - ng * g;
            let left = distribute_main_widths(&mut children, budget);
            proof {
                if budget >= 0 && n > 0 && all_growable_w_unbounded(s0, budget as int) {
                    assert(left == 0);
                }
            }
        } else {
            let pad = style.padding.x();
            let mut i: usize = 0;
            while i < n
                invariant
                    children@.len() == n == s0.len() <= MAX_CHILDREN,
                    0 <= i <= n,
                    0 <= current_width <= MAX_DIM,
                    0 <= pad <= 2 * MAX_DIM,
                    pad == style.padding.spec_x(),
                    forall|k: int| i <= k < n ==> children@[k] == s0[k],
                    forall|k: int|
                        0 <= k < i ==> width_pass_child(s0[k], #[trigger] children@[k])
                            && children@[k].spec_width() == cross_width_result(
                            s0[k],
                            current_width as int,
                            pad as int,
                        ) && !children@[k].spec_growable_width(),
                decreases n - i,
            {
                let ghost pre = children@;
                let mut nd = children.remove(i);
                proof {
                    use_type_invariant(&nd);
                }
                let rem = current_width - nd.current_width - pad;
                if (rem > 0 && nd.growable_width) || (rem < 0 && nd.shrinkable) {
                    nd.grow_width(rem);
                }
                nd.growable_width = false;
                children.insert(i, nd);
                proof {
                    assert(children@ =~= pre.update(i as int, nd));
                }
                i = i + 1;
            }
        }
        // recurse into child containers with their final widths, then re-fit
        // every child's height from that width
        let ghost s1 = children@;
        let mut i: usize = 0;
        while i < n
            invariant
                children@.len() == n == s1.len() == s0.len() <= MAX_CHILDREN,
                0 <= i <= n,
                forall|k: int| i <= k < n ==> children@[k] == s1[k],
                forall|k: int|
                    0 <= k < n ==> width_pass_child(s0[k], #[trigger] s1[k]),
                forall|k: int|
                    0 <= k < i ==> ({
                        let c = #[trigger] children@[k];
                        &&& c.spec_width() == s1[k].spec_width()
                        &&& c.spec_growable_width() == s1[k].spec_growable_width()
                        &&& c.spec_shrinkable() == s1[k].spec_shrinkable()
                        &&& crate::elements::node_height(c) == crate::elements::node_height(s1[k])
                        &&& width_grown_child(m, s0[k], c)
                    }),
                forall|k: int|
                    0 <= k < n ==> crate::elements::node_height(#[trigger] s1[k])
                        == crate::elements::node_height(s0[k]),
                crate::elements::nodes_height(s0) == crate::elements::nodes_height(self0.spec_children()),
                s0 == self0.spec_children(),
                self0 == self,
            decreases n - i,
        {
            let ghost pre = children@;
            let mut nd = children.remove(i);
            proof {
                use_type_invariant(&nd);
                assert(nd == s1[i as int]);
            }
            let KaolinNode {
                element,
                sizing_w,
                sizing_h,
                growable_width,
                growable_height,
                shrinkable,
                current_width: cw,
                current_height: ch,
                x,
                y,
            } = nd;
            let element = match element {
                KaolinElement::Flex(f) => {
                    proof {
                        crate::elements::lemma_nodes_height_ge(s0, i as int);
                        assert(crate::elements::node_height(nd) == crate::elements::node_height(
                            s0[i as int],
                        ));
                        assert(crate::elements::flex_height(f) < crate::elements::flex_height(
                            self0,
                        ));
                        assert(self0 == self);
                    }
                    let f2 = f.grow_children_width(m, cw);
                    KaolinElement::Flex(f2)
                },
                KaolinElement::Text(t) => KaolinElement::Text(t),
            };
            let nd2 = KaolinNode {
                element,
                sizing_w,
                sizing_h,
                growable_width,
                growable_height,
                shrinkable,
                current_width: cw,
                current_height: ch,
                x,
                y,
            };
            let nd3 = nd2.fit_height(m);
            children.insert(i, nd3);
            proof {
                assert(children@ =~= pre.update(i as int, nd3));
                assert(crate::elements::node_height(nd3) == crate::elements::node_height(
                    s1[i as int],
                ));
                assert(width_pass_child(s0[i as int], s1[i as int]));
                assert(width_grown_child(m, s0[i as int], nd3));
            }
            i = i + 1;
        }
        let r = FlexBox { style, children };
        proof {
            crate::elements::lemma_nodes_height_congruence(r.spec_children(), s0);
            lemma_sum_widths_congruence(r.spec_children(), s1);
            assert(r.spec_style() == self0.spec_style());
            assert(r.spec_children().len() == self0.spec_children().len());
            assert(forall|k: int|
                0 <= k < r.spec_children().len() ==> width_grown_child(
                    m,
                    self0.spec_children()[k],
                    #[trigger] r.spec_children()[k],
                ));
            if !self0.spec_style().spec_has_horizontal_layout() {
                assert(forall|k: int|
                    0 <= k < r.spec_children().len() ==> (
                    #[trigger] r.spec_children()[k]).spec_width() == cross_width_result(
                        self0.spec_children()[k],
                        current_width as int,
                        self0.spec_style().padding.spec_x(),
                    ) && !r.spec_children()[k].spec_growable_width());
            }
            assert(width_pass_rel(m, self0, r, current_width as int));
        }
        r
    }
}

/// Height sums agree on sequences with pointwise equal heights.
pub proof fn lemma_sum_heights_congruence(s1: Seq<KaolinNode>, s2: Seq<KaolinNode>)
    requires
        s1.len() == s2.len(),
        forall|i: int|
            0 <= i < s1.len() ==> s1[i].spec_height() == (#[trigger] s2[i]).spec_height(),
    ensures
        crate::elements::sum_heights(s1) == crate::elements::sum_heights(s2),
    decreases s1.len(),
{
    if s1.len() > 0 {
        assert(forall|i: int|
            0 <= i < s1.len() - 1 ==> s1.drop_last()[i] == s1[i] && (#[trigger] s2.drop_last()[i])
                == s2[i]);
        lemma_sum_heights_congruence(s1.drop_last(), s2.drop_last());
        assert(s1.last() == s1[s1.len() - 1]);
        assert(s2.last() == s2[s1.len() - 1]);
    }
}

/// What one height-distribution pass may do to a single child.
pub open spec fn height_pass_child(oc: KaolinNode, nc: KaolinNode) -> bool {
    &&& nc.spec_element() == oc.spec_element()
    &&& nc.spec_sizing_w() == oc.spec_sizing_w()
    &&& nc.spec_sizing_h() == oc.spec_sizing_h()
    &&& nc.spec_width() == oc.spec_width()
    &&& nc.spec_growable_width() == oc.spec_growable_width()
    &&& nc.spec_shrinkable() == oc.spec_shrinkable()
    &&& nc.spec_x() == oc.spec_x()
    &&& nc.spec_y() == oc.spec_y()
    &&& (nc.spec_growable_height() ==> oc.spec_growable_height())
    &&& nc.spec_height() >= oc.spec_height()
    &&& (nc.spec_height() != oc.spec_height() ==> oc.spec_sizing_h().spec_min()
        <= nc.spec_height() <= oc.spec_sizing_h().spec_max())
}

/// Distributes `budget` extra main-axis height over the children: repeatedly
/// levels the currently shortest growable children, weighted by grow factor,
/// until the budget is exhausted, nobody is left, or the remaining eligible
/// weights are zero. A truncating share that rounds to zero is raised to one
/// unit so the remainder is still distributed. Heights only ever grow; a
/// non-positive budget does nothing, and a budget over children that can
/// each absorb it whole is spent completely.
fn distribute_main_heights(children: &mut Vec<KaolinNode>, budget: i64) -> (left: i64)
    requires
        old(children)@.len() <= MAX_CHILDREN,
        -0x40_0000_0000_0000i64 <= budget <= 0x40_0000_0000_0000i64,
    ensures
        final(children)@.len() == old(children)@.len(),
        forall|i: int|
            0 <= i < final(children)@.len() ==> height_pass_child(
                old(children)@[i],
                #[trigger] final(children)@[i],
            ),
        crate::elements::sum_heights(final(children)@) == crate::elements::sum_heights(
            old(children)@,
        ) + (if budget >= 0 { budget - left } else { 0 }),
        budget >= 0 ==> 0 <= left <= budget,
        budget < 0 ==> left == budget,
        forall|i: int|
            0 <= i < final(children)@.len() ==> (#[trigger] final(children)@[i]).spec_height()
                >= old(children)@[i].spec_height(),
        budget >= 0 && old(children)@.len() > 0 && all_growable_h_unbounded(
            old(children)@,
            budget as int,
        ) ==> left == 0,
        exact_h_split(old(children)@, budget as int) ==> forall|i: int|
            0 <= i < final(children)@.len() ==> (#[trigger] final(children)@[i]).spec_height()
                == old(children)@[i].spec_height() + crate::elements::tdiv(
                budget as int * old(children)@[i].spec_sizing_h().spec_grow_factor(),
                sum_of(h_factors(old(children)@)),
            ),
{
    let ghost s0 = children@;
    let n = children.len();
    harvest_node_sanity(children);
    let ghost unb = budget >= 0 && n > 0 && all_growable_h_unbounded(s0, budget as int);
    let ghost exh = exact_h_split(s0, budget as int);
    proof {
        if exh {
            // with every share at least one unit, the budget is positive
            assert(crate::elements::tdiv(
                budget as int * s0[0].spec_sizing_h().spec_grow_factor(),
                sum_of(h_factors(s0)),
            ) >= 1);
            lemma_h_factor_sum_ge_len(s0);
            assert(sum_of(h_factors(s0)) >= 1);
            assert(budget >= 1) by {
                if budget as int * s0[0].spec_sizing_h().spec_grow_factor() <= 0 {
                    assert(-(budget as int * s0[0].spec_sizing_h().spec_grow_factor()) / sum_of(
                        h_factors(s0),
                    ) >= 0) by (nonlinear_arith)
                        requires
                            -(budget as int * s0[0].spec_sizing_h().spec_grow_factor()) >= 0,
                            sum_of(h_factors(s0)) >= 1,
                    ;
                    assert(false);
                } else {
                    assert(budget as int * s0[0].spec_sizing_h().spec_grow_factor() >= 1);
                    assert(budget >= 1) by (nonlinear_arith)
                        requires
                            budget as int * s0[0].spec_sizing_h().spec_grow_factor() >= 1,
                            0 <= s0[0].spec_sizing_h().spec_grow_factor()
                                <= crate::style::sizing::MAX_FACTOR,
                    ;
                }
            }
        }
    }
    let mut remaining = budget;
    if remaining <= 0 {
        return remaining;
    }
    loop
        invariant
            children@.len() == n == s0.len() <= MAX_CHILDREN,
            s0 == old(children)@,
            0 <= budget <= 0x40_0000_0000_0000i64,
            0 <= remaining <= budget,
            forall|i: int|
                0 <= i < n ==> height_pass_child(s0[i], #[trigger] children@[i]),
            forall|i: int| 0 <= i < n ==> node_h_sane(#[trigger] s0[i]),
            crate::elements::sum_heights(children@) == crate::elements::sum_heights(s0) + budget
                - remaining,
            forall|i: int|
                0 <= i < n ==> (#[trigger] children@[i]).spec_height() >= s0[i].spec_height(),
            unb == (budget >= 0 && n > 0 && all_growable_h_unbounded(s0, budget as int)),
            unb ==> forall|i: int|
                0 <= i < n ==> (#[trigger] children@[i]).spec_growable_height(),
            unb ==> forall|i: int|
                0 <= i < n ==> (#[trigger] children@[i]).spec_height() <= s0[i].spec_height() + (
                budget - remaining),
            exh == exact_h_split(s0, budget as int),
            exh ==> budget >= 1,
            exh ==> ((remaining == budget && children@ == s0) || (remaining == 0 && forall|k: int|
                0 <= k < n ==> (#[trigger] children@[k]).spec_height() == s0[k].spec_height()
                    + crate::elements::tdiv(
                    budget as int * s0[k].spec_sizing_h().spec_grow_factor(),
                    sum_of(h_factors(s0)),
                ))),
        ensures
            children@.len() == n,
            forall|i: int|
                0 <= i < n ==> height_pass_child(s0[i], #[trigger] children@[i]),
            crate::elements::sum_heights(children@) == crate::elements::sum_heights(s0) + budget
                - remaining,
            0 <= remaining <= budget,
            forall|i: int|
                0 <= i < n ==> (#[trigger] children@[i]).spec_height() >= s0[i].spec_height(),
            unb ==> remaining == 0,
            exh ==> forall|k: int|
                0 <= k < n ==> (#[trigger] children@[k]).spec_height() == s0[k].spec_height()
                    + crate::elements::tdiv(
                    budget as int * s0[k].spec_sizing_h().spec_grow_factor(),
                    sum_of(h_factors(s0)),
                ),
        decreases remaining as int, count_growable_h(children@),
    {
        if remaining == 0 {
            break;
        }
        let pair = crate::elements::get_smallest_heights(children);
        let extreme = pair.0;
        if extreme == crate::elements::NO_SIZE {
            proof {
                if unb {
                    lemma_min_growable_h_le(children@, 0);
                }
            }
            break;
        }
        let diff = pair.1 - extreme;
        let bound_mag = if remaining < diff {
            remaining
        } else {
            diff
        };
        let f_total = crate::elements::total_grow_factor_h_at(children, extreme);
        proof {
            if exh {
                // the single equal tier: the common height is the extreme,
                // nothing lies above it, and the step bound is the budget
                assert(children@ == s0);
                assert(remaining == budget);
                let h0 = s0[0].spec_height();
                lemma_min_growable_h_le(children@, 0);
                lemma_min_growable_h_attained(children@);
                let j = choose|j: int|
                    0 <= j < children@.len() && (#[trigger] children@[j]).spec_growable_height()
                        && children@[j].spec_height() == crate::elements::min_growable_height(
                        children@,
                    );
                assert(s0[j].spec_height() == h0);
                assert(extreme as int == h0);
                lemma_min_above_all_equal_h(children@, extreme as int);
                assert(s0[0].spec_sizing_h().spec_max() >= h0 + budget);
                assert(budget + extreme as int <= MAX_DIM);
                assert(bound_mag == remaining);
                lemma_all_at_h_factor_sum(children@, extreme as int);
                assert(f_total as int == sum_of(h_factors(s0)));
                assert(h_factors(s0).take(0) =~= Seq::<int>::empty());
            }
        }
        if f_total <= 0 {
            proof {
                if unb {
                    lemma_min_growable_h_attained(children@);
                    let j = choose|j: int|
                        0 <= j < children@.len() && (
                        #[trigger] children@[j]).spec_growable_height() && children@[
                            j
                        ].spec_height() == crate::elements::min_growable_height(children@);
                    lemma_factor_sum_h_lower(children@, j, extreme as int);
                }
            }
            break;
        }
        let mut total_change: i64 = 0;
        let ghost s_iter = children@;
        let ghost rem0 = remaining as int;
        let ghost count0 = count_growable_h(s_iter);
        let ghost fspec = crate::elements::sum_grow_factors_h_at(s_iter, extreme as int);
        let mut i: usize = 0;
        while i < n
            invariant
                children@.len() == n == s0.len() <= MAX_CHILDREN,
                s_iter.len() == n,
                s0 == old(children)@,
                0 <= i <= n,
                0 < f_total,
                f_total as int == fspec,
                fspec == crate::elements::sum_grow_factors_h_at(s_iter, extreme as int),
                0 < remaining <= 0x40_0000_0000_0000i64,
                0 <= bound_mag <= crate::elements::NO_SIZE,
                rem0 == remaining,
                0 <= total_change <= remaining,
                forall|k: int|
                    0 <= k < n ==> height_pass_child(s0[k], #[trigger] children@[k]),
                forall|k: int| 0 <= k < n ==> node_h_sane(#[trigger] s0[k]),
                forall|k: int| i <= k < n ==> children@[k] == s_iter[k],
                crate::elements::sum_heights(children@) == crate::elements::sum_heights(s_iter)
                    + total_change,
                forall|k: int|
                    0 <= k < n ==> (#[trigger] children@[k]).spec_height()
                        >= s_iter[k].spec_height(),
                forall|k: int|
                    0 <= k < n ==> (#[trigger] s_iter[k]).spec_height() >= s0[k].spec_height(),
                count_growable_h(children@) <= count0,
                total_change != 0 || count_growable_h(children@) < count0 || fspec
                    - crate::elements::sum_grow_factors_h_at(
                    s_iter.take(i as int),
                    extreme as int,
                ) >= 1,
                unb ==> forall|k: int|
                    0 <= k < n ==> (#[trigger] children@[k]).spec_growable_height(),
                unb ==> forall|k: int|
                    0 <= k < n ==> (#[trigger] children@[k]).spec_height() <= s0[k].spec_height()
                        + (budget - rem0) + total_change,
                unb == (budget >= 0 && n > 0 && all_growable_h_unbounded(s0, budget as int)),
                exh == exact_h_split(s0, budget as int),
                exh ==> s_iter == s0 && rem0 == budget as int && extreme as int
                    == s0[0].spec_height() && bound_mag == budget && fspec == sum_of(
                    h_factors(s0),
                ),
                exh ==> forall|k: int|
                    0 <= k < i ==> (#[trigger] children@[k]).spec_height() == s0[k].spec_height()
                        + crate::elements::tdiv(
                        budget as int * s0[k].spec_sizing_h().spec_grow_factor(),
                        sum_of(h_factors(s0)),
                    ),
                exh ==> total_change as int == sum_shares(
                    budget as int,
                    h_factors(s0).take(i as int),
                    sum_of(h_factors(s0)),
                ),
                0 <= budget <= 0x40_0000_0000_0000i64,
            decreases n - i,
        {
            let eligible = {
                let c = &children[i];
                c.growable_height && c.current_height == extreme
            };
            proof {
                crate::elements::lemma_take_snoc(s_iter, i as int);
            }
            if !eligible {
                proof {
                    if exh {
                        assert(false);
                    }
                }
            }
            if eligible {
                let ghost pre = children@;
                let mut nd = children.remove(i);
                proof {
                    use_type_invariant(&nd);
                }
                let slack = remaining - total_change;
                let factor = nd.sizing_h.get_grow_factor();
                let raw = share_of(bound_mag, factor, f_total);
                let share = if raw == 0 && factor > 0 {
                    1
                } else {
                    raw
                };
                let delta = if share < slack {
                    share
                } else {
                    slack
                };
                proof {
                    if exh {
                        // the exact proportional share fits in the slack
                        lemma_factors_len(s0);
                        lemma_factors_index(s0, i as int);
                        assert(h_factors(s0).take(i as int + 1).drop_last() =~= h_factors(
                            s0,
                        ).take(i as int));
                        assert(h_factors(s0).take(i as int + 1).last() == h_factors(s0)[
                            i as int
                        ]);
                        assert(factor as int == s0[i as int].spec_sizing_h().spec_grow_factor());
                        assert(raw as int == crate::elements::tdiv(
                            budget as int * factor as int,
                            sum_of(h_factors(s0)),
                        ));
                        assert(raw >= 1);
                        assert forall|k: int|
                            0 <= k < h_factors(s0).len() implies #[trigger] h_factors(s0)[k]
                            >= 0 by {
                            lemma_factors_index(s0, k);
                        }
                        lemma_sum_shares_prefix(budget as int, h_factors(s0), sum_of(
                            h_factors(s0),
                        ), i as int + 1);
                        assert(sum_shares(budget as int, h_factors(s0).take(i as int + 1),
                            sum_of(h_factors(s0))) <= budget);
                        assert(raw as int <= slack);
                        assert(delta == raw);
                    }
                }
                if delta != 0 || factor == 0 {
                    let ghost nd0 = pre[i as int];
                    let applied = if delta > 0 {
                        nd.grow_height(delta)
                    } else {
                        nd.clear_growable_height();
                        0
                    };
                    let ghost ndg = nd;
                    proof {
                        if unb {
                            // the budget never outruns any child's headroom,
                            // so the clamp cannot bind
                            assert(nd0.spec_sizing_h() == s0[i as int].spec_sizing_h());
                            assert(nd0.spec_height() <= s0[i as int].spec_height() + (budget
                                - rem0) + total_change);
                            assert(delta <= rem0 - total_change);
                            assert(nd0.spec_height() + delta <= s0[i as int].spec_height()
                                + budget);
                            assert(s0[i as int].spec_sizing_h().spec_max()
                                >= s0[i as int].spec_height() + budget);
                            assert(nd0.spec_sizing_h().spec_clamped(nd0.spec_height() + delta)
                                == nd0.spec_height() + delta);
                            assert(delta >= 1);
                            assert(applied == delta);
                            assert(ndg.spec_growable_height());
                        }
                        assert(0 <= applied <= delta);
                        if applied == 0 {
                            assert(!ndg.spec_growable_height());
                        }
                    }
                    children.insert(i, nd);
                    total_change = total_change + applied;
                    proof {
                        assert(children@ =~= pre.update(i as int, ndg));
                        lemma_sum_heights_update(pre, i as int, ndg);
                        lemma_counts_update(pre, i as int, ndg);
                        if exh {
                            assert(ndg.spec_height() == s0[i as int].spec_height()
                                + crate::elements::tdiv(
                                budget as int * s0[i as int].spec_sizing_h().spec_grow_factor(),
                                sum_of(h_factors(s0)),
                            ));
                            assert(total_change as int == sum_shares(
                                budget as int,
                                h_factors(s0).take(i as int + 1),
                                sum_of(h_factors(s0)),
                            ));
                        }
                        if applied == 0 && total_change == 0 {
                            assert(count_growable_h(children@) < count0);
                        }
                    }
                } else {
                    children.insert(i, nd);
                    proof {
                        assert(children@ =~= pre.update(i as int, nd));
                        assert(children@ =~= pre);
                        assert(total_change == rem0);
                        if exh {
                            assert(false);
                        }
                    }
                }
            }
            i = i + 1;
        }
        proof {
            assert(s_iter.take(n as int) =~= s_iter);
            if exh {
                lemma_factors_len(s0);
                assert(h_factors(s0).take(n as int) =~= h_factors(s0));
            }
        }
        if total_change == 0 {
            proof {
                lemma_counts_nonneg(children@);
                assert(count_growable_h(children@) < count0);
                if unb {
                    lemma_count_growable_h_full(children@);
                    lemma_count_growable_h_full(s_iter);
                    assert(false);
                }
            }
        } else {
            remaining = remaining - total_change;
            proof {
                if exh {
                    assert(total_change as int == sum_shares(
                        budget as int,
                        h_factors(s0),
                        sum_of(h_factors(s0)),
                    ));
                    assert(remaining == 0);
                }
            }
        }
    }
    remaining
}

/// The height a cross-axis child ends with: grown once to the container's
/// inner height when its flag allows, else unchanged.
pub open spec fn cross_height_result(oc: KaolinNode, container_height: int, pad_y: int) -> int {
    let rem = container_height - oc.spec_height() - pad_y;
    if rem > 0 && oc.spec_growable_height() {
        oc.spec_sizing_h().spec_clamped(oc.spec_height() + rem)
    } else {
        oc.spec_height()
    }
}

/// What the whole height pass does to one child, recursively: heights only
/// ever grow within the child's bounds, everything else is untouched, and a
/// nested container has had its own height pass run against the child's
/// final height in turn.
pub open spec fn height_grown_child(oc: KaolinNode, nc: KaolinNode) -> bool
    decreases oc,
{
    &&& nc.spec_sizing_w() == oc.spec_sizing_w()
    &&& nc.spec_sizing_h() == oc.spec_sizing_h()
    &&& nc.spec_width() == oc.spec_width()
    &&& nc.spec_growable_width() == oc.spec_growable_width()
    &&& nc.spec_shrinkable() == oc.spec_shrinkable()
    &&& nc.spec_x() == oc.spec_x()
    &&& nc.spec_y() == oc.spec_y()
    &&& (nc.spec_growable_height() ==> oc.spec_growable_height())
    &&& nc.spec_height() >= oc.spec_height()
    &&& (nc.spec_height() != oc.spec_height() ==> oc.spec_sizing_h().spec_min()
        <= nc.spec_height() <= oc.spec_sizing_h().spec_max())
    &&& crate::elements::node_height(nc) == crate::elements::node_height(oc)
    &&& match oc.spec_element() {
        KaolinElement::Text(ot) => nc.spec_element() == KaolinElement::Text(ot),
        KaolinElement::Flex(of) => nc.spec_element() matches KaolinElement::Flex(nf)
            && height_pass_rel(of, nf, nc.spec_height()),
    }
}

/// What the height growth pass guarantees of a container laid out against
/// the final height `h`: child by child recursively; along a horizontal main
/// axis every child's height is pinned exactly; along a vertical main axis
/// the children's height sum moves towards the budget without overshooting,
/// and the budget is spent completely when every child can absorb it whole.
pub open spec fn height_pass_rel(f1: FlexBox, f2: FlexBox, h: int) -> bool
    decreases f1,
{
    &&& f2.spec_style() == f1.spec_style()
    &&& f2.spec_children().len() == f1.spec_children().len()
    &&& forall|i: int|
        0 <= i < f2.spec_children().len() ==> height_grown_child(
            f1.spec_children()[i],
            #[trigger] f2.spec_children()[i],
        )
    &&& f1.spec_style().spec_has_horizontal_layout() ==> forall|i: int|
        0 <= i < f2.spec_children().len() ==> (#[trigger] f2.spec_children()[i]).spec_height()
            == cross_height_result(
            f1.spec_children()[i],
            h,
            f1.spec_style().padding.spec_y(),
        ) && !f2.spec_children()[i].spec_growable_height()
    &&& !f1.spec_style().spec_has_horizontal_layout() ==> ({
        let budget = h - f1.spec_style().padding.spec_y() - crate::elements::sum_heights(
            f1.spec_children(),
        ) - gaps_of(f1.spec_children()) * f1.spec_style().layout.spec_gap();
        &&& budget >= 0 ==> crate::elements::sum_heights(f1.spec_children())
            <= crate::elements::sum_heights(f2.spec_children())
            <= crate::elements::sum_heights(f1.spec_children()) + budget
        &&& budget < 0 ==> crate::elements::sum_heights(f2.spec_children())
            == crate::elements::sum_heights(f1.spec_children())
        &&& (budget >= 0 && f1.spec_children().len() > 0 && all_growable_h_unbounded(
            f1.spec_children(),
            budget,
        )) ==> crate::elements::sum_heights(f2.spec_children())
            == crate::elements::sum_heights(f1.spec_children()) + budget
        &&& exact_h_split(f1.spec_children(), budget) ==> forall|i: int|
            0 <= i < f2.spec_children().len() ==> (#[trigger] f2.spec_children()[
                i
            ]).spec_height() == f1.spec_children()[i].spec_height() + crate::elements::tdiv(
                budget * f1.spec_children()[i].spec_sizing_h().spec_grow_factor(),
                sum_of(h_factors(f1.spec_children())),
            )
    })
}

impl FlexBox {
    /// Grows the heights of the children to fill this container's now-final
    /// height, then recurses into child containers. Heights only ever grow.
    ///
    /// Along a vertical main axis the children share the free height by the
    /// leveling distribution; along a horizontal main axis each child is
    /// grown once to the inner height on its own.
    pub fn grow_children_height(self, current_height: i64) -> (r: Self)
        requires
            self.spec_children().len() <= MAX_CHILDREN,
            0 <= current_height <= MAX_DIM,
        ensures
            crate::elements::flex_height(r) == crate::elements::flex_height(self),
            height_pass_rel(self, r, current_height as int),
        decreases crate::elements::flex_height(self),
    {
        let ghost self0 = self;
        let FlexBox { style, mut children } = self;
        let ghost s0 = children@;
        let n = children.len();
        if style.has_horizontal_layout() {
            let pad = style.padding.y();
            let mut i: usize = 0;
            while i < n
                invariant
                    children@.len() == n == s0.len() <= MAX_CHILDREN,
                    0 <= i <= n,
                    0 <= current_height <= MAX_DIM,
                    0 <= pad <= 2 * MAX_DIM,
                    pad == style.padding.spec_y(),
                    forall|k: int| i <= k < n ==> children@[k] == s0[k],
                    forall|k: int|
                        0 <= k < i ==> height_pass_child(s0[k], #[trigger] children@[k])
                            && children@[k].spec_height() == cross_height_result(
                            s0[k],
                            current_height as int,
                            pad as int,
                        ) && !children@[k].spec_growable_height(),
                decreases n - i,
            {
                let ghost pre = children@;
                let mut nd = children.remove(i);
                proof {
                    use_type_invariant(&nd);
                }
                let rem = current_height - nd.current_height - pad;
                if rem > 0 && nd.growable_height {
                    nd.grow_height(rem);
                }
                nd.growable_height = false;
                children.insert(i, nd);
                proof {
                    assert(children@ =~= pre.update(i as int, nd));
                }
                i = i + 1;
            }
        } else {
            let cum = crate::elements::cumulative_height(&children);
            let n_gaps = gaps(&children);
            let g = style.layout.get_gap();
            let ng: i64 = n_gaps as i64;
            proof {
                assert(0 <= ng * g <= 0x1_0000i64 * MAX_DIM) by (nonlinear_arith)
                    requires
                        0 <= ng <= 0x1_0000i64,
                        0 <= g <= MAX_DIM,
                ;
            }
            let pad = style.padding.y();
            let budget = current_height - pad - cum - ng * g;
            let left = distribute_main_heights(&mut children, budget);
            proof {
                if budget >= 0 && n > 0 && all_growable_h_unbounded(s0, budget as int) {
                    assert(left == 0);
                }
            }
        }
        // recurse into child containers with their final heights
        let ghost s1 = children@;
        let mut i: usize = 0;
        while i < n
            invariant
                children@.len() == n == s1.len() == s0.len() <= MAX_CHILDREN,
                0 <= i <= n,
                forall|k: int| i <= k < n ==> children@[k] == s1[k],
                forall|k: int|
                    0 <= k < n ==> height_pass_child(s0[k], #[trigger] s1[k]),
                forall|k: int|
                    0 <= k < i ==> ({
                        let c = #[trigger] children@[k];
                        &&& c.spec_height() == s1[k].spec_height()
                        &&& c.spec_growable_height() == s1[k].spec_growable_height()
                        &&& crate::elements::node_height(c) == crate::elements::node_height(s1[k])
                        &&& height_grown_child(s0[k], c)
                    }),
                forall|k: int|
                    0 <= k < n ==> crate::elements::node_height(#[trigger] s1[k])
                        == crate::elements::node_height(s0[k]),
                s0 == self0.spec_children(),
                self0 == self,
            decreases n - i,
        {
            let ghost pre = children@;
            let nd = children.remove(i);
            proof {
                use_type_invariant(&nd);
                assert(nd == s1[i as int]);
            }
            let KaolinNode {
                element,
                sizing_w,
                sizing_h,
                growable_width,
                growable_height,
                shrinkable,
                current_width: cw,
                current_height: ch,
                x,
                y,
            } = nd;
            let element = match element {
                KaolinElement::Flex(f) => {
                    proof {
                        crate::elements::lemma_nodes_height_ge(s0, i as int);
                        assert(crate::elements::node_height(nd) == crate::elements::node_height(
                            s0[i as int],
                        ));
                        assert(crate::elements::flex_height(f) < crate::elements::flex_height(
                            self0,
                        ));
                        assert(self0 == self);
                    }
                    let f2 = f.grow_children_height(ch);
                    KaolinElement::Flex(f2)
                },
                KaolinElement::Text(t) => KaolinElement::Text(t),
            };
            let nd2 = KaolinNode {
                element,
                sizing_w,
                sizing_h,
                growable_width,
                growable_height,
                shrinkable,
                current_width: cw,
                current_height: ch,
                x,
                y,
            };
            children.insert(i, nd2);
            proof {
                assert(children@ =~= pre.update(i as int, nd2));
                assert(crate::elements::node_height(nd2) == crate::elements::node_height(
                    s1[i as int],
                ));
                assert(height_pass_child(s0[i as int], s1[i as int]));
                assert(height_grown_child(s0[i as int], nd2));
            }
            i = i + 1;
        }
        let r = FlexBox { style, children };
        proof {
            crate::elements::lemma_nodes_height_congruence(r.spec_children(), s0);
            lemma_sum_heights_congruence(r.spec_children(), s1);
            assert(r.spec_style() == self0.spec_style());
            assert(r.spec_children().len() == self0.spec_children().len());
            assert(forall|k: int|
                0 <= k < r.spec_children().len() ==> height_grown_child(
                    self0.spec_children()[k],
                    #[trigger] r.spec_children()[k],
                ));
            if self0.spec_style().spec_has_horizontal_layout() {
                assert(forall|k: int|
                    0 <= k < r.spec_children().len() ==> (
                    #[trigger] r.spec_children()[k]).spec_height() == cross_height_result(
                        self0.spec_children()[k],
                        current_height as int,
                        self0.spec_style().padding.spec_y(),
                    ) && !r.spec_children()[k].spec_growable_height());
            }
            assert(height_pass_rel(self0, r, current_height as int));
        }
        r
    }
}

/// The number of gaps between the children of `f`.
pub open spec fn spec_n_gaps(f: FlexBox) -> int {
    gaps_of(f.spec_children())
}

/// The children's total occupation of the main axis.
pub open spec fn spec_cum_main(f: FlexBox) -> int {
    if f.spec_style().spec_has_horizontal_layout() {
        sum_widths(f.spec_children())
    } else {
        crate::elements::sum_heights(f.spec_children())
    }
}

/// The cross size of child `i`.
pub open spec fn spec_child_cross_size(f: FlexBox, i: int) -> int {
    if f.spec_style().spec_has_horizontal_layout() {
        f.spec_children()[i].spec_height()
    } else {
        f.spec_children()[i].spec_width()
    }
}

/// The children's main sizes summed over the first `i` children.
pub open spec fn spec_prefix_main(f: FlexBox, i: int) -> int {
    if f.spec_style().spec_has_horizontal_layout() {
        sum_widths(f.spec_children().take(i))
    } else {
        crate::elements::sum_heights(f.spec_children().take(i))
    }
}

/// The effective distance between adjacent children: the configured gap, or
/// the larger policy gap a space-distributing justification asks for.
pub open spec fn spec_gap_eff(f: FlexBox, l: int, r: int, t: int, b: int) -> int {
    let tot_main = if f.spec_style().spec_has_horizontal_layout() {
        r - l
    } else {
        b - t
    };
    let empty = tot_main - spec_cum_main(f);
    let ng = spec_n_gaps(f);
    let policy = match f.spec_style().layout.spec_justification() {
        crate::style::layout::Justification::SpaceBetween => if ng > 0 {
            crate::elements::tdiv(empty, ng)
        } else {
            0
        },
        crate::style::layout::Justification::SpaceAround => crate::elements::tdiv(empty, ng + 2),
        _ => 0,
    };
    let g = f.spec_style().layout.spec_gap();
    if policy > g {
        policy
    } else {
        g
    }
}

/// The main-axis position of the first child.
pub open spec fn spec_main_start(f: FlexBox, l: int, r: int, t: int, b: int) -> int {
    let horizontal = f.spec_style().spec_has_horizontal_layout();
    let pad = f.spec_style().padding;
    let tot_main = if horizontal {
        r - l
    } else {
        b - t
    };
    let cum = spec_cum_main(f);
    let empty = tot_main - cum;
    let ng = spec_n_gaps(f);
    let gap = spec_gap_eff(f, l, r, t, b);
    let leftover = empty - gap * ng;
    let main_start_off = if horizontal {
        l + pad.spec_left()
    } else {
        t + pad.spec_top()
    };
    let main_end_off = if horizontal {
        r - pad.spec_right()
    } else {
        b - pad.spec_bottom()
    };
    let main_pad = if horizontal {
        pad.spec_x()
    } else {
        pad.spec_y()
    };
    match f.spec_style().layout.spec_justification() {
        crate::style::layout::Justification::Start => main_start_off,
        crate::style::layout::Justification::SpaceBetween => main_start_off,
        crate::style::layout::Justification::SpaceAround => main_start_off + gap,
        crate::style::layout::Justification::End => main_end_off - cum - gap * ng,
        crate::style::layout::Justification::Center => main_start_off + crate::elements::tdiv(
            leftover - main_pad,
            2,
        ),
    }
}

/// The main-axis position of child `i`: the start cursor advanced past the
/// earlier children and one effective gap each.
pub open spec fn spec_child_main(f: FlexBox, l: int, r: int, t: int, b: int, i: int) -> int {
    spec_main_start(f, l, r, t, b) + spec_prefix_main(f, i) + i * spec_gap_eff(f, l, r, t, b)
}

/// The cross-axis position of child `i`, per the container's alignment.
pub open spec fn spec_child_cross(f: FlexBox, l: int, r: int, t: int, b: int, i: int) -> int {
    let horizontal = f.spec_style().spec_has_horizontal_layout();
    let pad = f.spec_style().padding;
    let tot_cross = if horizontal {
        b - t
    } else {
        r - l
    };
    let cross_start_off = if horizontal {
        t + pad.spec_top()
    } else {
        l + pad.spec_left()
    };
    let cross_end_off = if horizontal {
        b - pad.spec_bottom()
    } else {
        r - pad.spec_right()
    };
    let cross_pad = if horizontal {
        pad.spec_y()
    } else {
        pad.spec_x()
    };
    let usable = tot_cross - cross_pad;
    let c = spec_child_cross_size(f, i);
    match f.spec_style().layout.spec_alignment() {
        crate::style::layout::Alignment::Start => cross_start_off,
        crate::style::layout::Alignment::Stretch => cross_start_off,
        crate::style::layout::Alignment::Center => cross_start_off + crate::elements::tdiv(
            usable - c,
            2,
        ),
        crate::style::layout::Alignment::End => cross_end_off - c,
    }
}

/// The absolute horizontal position assigned to child `i`.
pub open spec fn spec_child_x(f: FlexBox, l: int, r: int, t: int, b: int, i: int) -> int {
    if f.spec_style().spec_has_horizontal_layout() {
        spec_child_main(f, l, r, t, b, i)
    } else {
        spec_child_cross(f, l, r, t, b, i)
    }
}

/// The absolute vertical position assigned to child `i`.
pub open spec fn spec_child_y(f: FlexBox, l: int, r: int, t: int, b: int, i: int) -> int {
    if f.spec_style().spec_has_horizontal_layout() {
        spec_child_cross(f, l, r, t, b, i)
    } else {
        spec_child_main(f, l, r, t, b, i)
    }
}

/// Positioning relates an old node to a new one: the new node sits at the
/// given coordinates (brought into the coordinate range), everything but
/// positions is untouched, and a container's children sit at the places the
/// closed-form position functions give, recursively.
pub open spec fn node_positioned(on: KaolinNode, nn: KaolinNode, x: int, y: int) -> bool
    decreases on,
{
    &&& nn.spec_x() == clamp_coord(x)
    &&& nn.spec_y() == clamp_coord(y)
    &&& nn.spec_width() == on.spec_width()
    &&& nn.spec_height() == on.spec_height()
    &&& nn.spec_sizing_w() == on.spec_sizing_w()
    &&& nn.spec_sizing_h() == on.spec_sizing_h()
    &&& nn.spec_growable_width() == on.spec_growable_width()
    &&& nn.spec_growable_height() == on.spec_growable_height()
    &&& nn.spec_shrinkable() == on.spec_shrinkable()
    &&& match on.spec_element() {
        KaolinElement::Text(ot) => nn.spec_element() == KaolinElement::Text(ot),
        KaolinElement::Flex(of) => nn.spec_element() matches KaolinElement::Flex(nf)
            && flex_positioned(
            of,
            nf,
            clamp_coord(x),
            clamp_coord(x) + on.spec_width(),
            clamp_coord(y),
            clamp_coord(y) + on.spec_height(),
        ),
    }
}

/// Positioning relates an old container to a new one against absolute bounds.
pub open spec fn flex_positioned(of: FlexBox, nf: FlexBox, l: int, r: int, t: int, b: int) -> bool
    decreases of,
{
    &&& nf.spec_style() == of.spec_style()
    &&& nf.spec_children().len() == of.spec_children().len()
    &&& forall|i: int|
        0 <= i < of.spec_children().len() ==> node_positioned(
            of.spec_children()[i],
            #[trigger] nf.spec_children()[i],
            spec_child_x(of, l, r, t, b, i),
            spec_child_y(of, l, r, t, b, i),
        )
}

/// Truncating division of an `i128`, rounding towards zero.
fn div_trunc(a: i128, b: i128) -> (r: i128)
    requires
        0 < b,
        -0x1000_0000_0000_0000_0000_0000i128 <= a <= 0x1000_0000_0000_0000_0000_0000i128,
    ensures
        r == crate::elements::tdiv(a as int, b as int),
        0 <= r <= a || a <= r <= 0,
{
    if a >= 0 {
        let q = a / b;
        proof {
            assert(0 <= a as int / b as int <= a as int) by (nonlinear_arith)
                requires
                    0 <= a as int,
                    0 < b as int,
            ;
        }
        q
    } else {
        let na = -a;
        let q = na / b;
        proof {
            assert(0 <= na as int / b as int <= na as int) by (nonlinear_arith)
                requires
                    0 <= na as int,
                    0 < b as int,
            ;
        }
        -q
    }
}

/// An `i128` coordinate brought into `[-MAX_COORD, MAX_COORD]` as an `i64`.
fn clamp_coord_exec(v: i128) -> (r: i64)
    ensures
        r == clamp_coord(v as int),
        -crate::elements::MAX_COORD <= r <= crate::elements::MAX_COORD,
{
    if v < -(crate::elements::MAX_COORD as i128) {
        -crate::elements::MAX_COORD
    } else if v > crate::elements::MAX_COORD as i128 {
        crate::elements::MAX_COORD
    } else {
        v as i64
    }
}

impl KaolinNode {
    /// Places the node at the given absolute position and propagates the
    /// change into the element: a container positions its children within
    /// its own final bounds.
    pub fn set_position(self, x: i64, y: i64) -> (r: Self)
        requires
            -crate::elements::MAX_COORD <= x <= crate::elements::MAX_COORD,
            -crate::elements::MAX_COORD <= y <= crate::elements::MAX_COORD,
        ensures
            node_positioned(self, r, x as int, y as int),
            crate::elements::node_height(r) == crate::elements::node_height(self),
        decreases crate::elements::node_height(self),
    {
        proof {
            use_type_invariant(&self);
        }
        let KaolinNode {
            element,
            sizing_w,
            sizing_h,
            growable_width,
            growable_height,
            shrinkable,
            current_width,
            current_height,
            x: _old_x,
            y: _old_y,
        } = self;
        let element = match element {
            KaolinElement::Flex(f) => {
                proof {
                    assert(crate::elements::flex_height(f) < crate::elements::node_height(self));
                }
                let f2 = f.position_children(x, x + current_width, y, y + current_height);
                KaolinElement::Flex(f2)
            },
            KaolinElement::Text(t) => KaolinElement::Text(t),
        };
        KaolinNode {
            element,
            sizing_w,
            sizing_h,
            growable_width,
            growable_height,
            shrinkable,
            current_width,
            current_height,
            x,
            y,
        }
    }
}

impl FlexBox {
    /// Positions every child within the container's absolute bounds
    /// `(left, right, top, bottom)`, walking them in order and recursing into
    /// child containers. Sizes are never changed, so running the pass again
    /// on the same bounds reproduces the same positions.
    #[verifier::rlimit(50)]
    pub fn position_children(self, left: i64, right: i64, top: i64, bottom: i64) -> (r: Self)
        requires
            self.spec_children().len() <= MAX_CHILDREN,
            -0x2_0000_0000_0000i64 <= left <= 0x2_0000_0000_0000i64,
            -0x2_0000_0000_0000i64 <= right <= 0x2_0000_0000_0000i64,
            -0x2_0000_0000_0000i64 <= top <= 0x2_0000_0000_0000i64,
            -0x2_0000_0000_0000i64 <= bottom <= 0x2_0000_0000_0000i64,
        ensures
            flex_positioned(self, r, left as int, right as int, top as int, bottom as int),
            crate::elements::flex_height(r) == crate::elements::flex_height(self),
        decreases crate::elements::flex_height(self),
    {
        let ghost self0 = self;
        let ghost li = left as int;
        let ghost ri = right as int;
        let ghost ti = top as int;
        let ghost bi = bottom as int;
        let FlexBox { style, mut children } = self;
        let ghost s0 = children@;
        let n = children.len();
        let horizontal = style.has_horizontal_layout();
        let cum: i64 = if horizontal {
            cumulative_width(&children)
        } else {
            crate::elements::cumulative_height(&children)
        };
        let n_gaps = gaps(&children) as i64;
        let tot_main: i128 = if horizontal {
            right as i128 - left as i128
        } else {
            bottom as i128 - top as i128
        };
        let empty: i128 = tot_main - cum as i128;
        let g: i64 = style.layout.get_gap();
        let policy: i128 = match style.layout.get_justification() {
            crate::style::layout::Justification::SpaceBetween => {
                if n_gaps > 0 {
                    div_trunc(empty, n_gaps as i128)
                } else {
                    0
                }
            },
            crate::style::layout::Justification::SpaceAround => div_trunc(
                empty,
                n_gaps as i128 + 2,
            ),
            _ => 0,
        };
        let gap_eff: i128 = if policy > g as i128 {
            policy
        } else {
            g as i128
        };
        proof {
            assert(gap_eff == spec_gap_eff(self0, li, ri, ti, bi));
            assert(-0x5_0000_0000_0000i128 <= empty <= 0x5_0000_0000_0000i128);
            assert(0 <= gap_eff <= 0x5_0000_0000_0000i128);
        }
        let ghost gei = gap_eff as int;
        proof {
            assert(0 <= (n_gaps as i128) * gap_eff <= 0x1_0000i128 * 0x8_0000_0000_0000i128)
                by (nonlinear_arith)
                requires
                    0 <= n_gaps as i128 <= 0x1_0000i128,
                    0 <= gap_eff <= 0x8_0000_0000_0000i128,
            ;
        }
        let leftover: i128 = empty - (n_gaps as i128) * gap_eff;
        let main_start_off: i128 = if horizontal {
            left as i128 + style.padding.get_left() as i128
        } else {
            top as i128 + style.padding.get_top() as i128
        };
        let main_end_off: i128 = if horizontal {
            right as i128 - style.padding.get_right() as i128
        } else {
            bottom as i128 - style.padding.get_bottom() as i128
        };
        let main_pad: i128 = if horizontal {
            style.padding.x() as i128
        } else {
            style.padding.y() as i128
        };
        proof {
            assert(empty as int == (if horizontal {
                ri - li
            } else {
                bi - ti
            }) - spec_cum_main(self0));
            assert((n_gaps as i128) as int == spec_n_gaps(self0));
            assert((n_gaps as i128 * gap_eff) as int == spec_n_gaps(self0) * gei);
            assert(leftover as int == empty as int - spec_n_gaps(self0) * gei);
            assert(main_start_off as int == (if horizontal {
                li + style.padding.spec_left()
            } else {
                ti + style.padding.spec_top()
            }));
            assert(main_end_off as int == (if horizontal {
                ri - style.padding.spec_right()
            } else {
                bi - style.padding.spec_bottom()
            }));
            assert(main_pad as int == (if horizontal {
                style.padding.spec_x()
            } else {
                style.padding.spec_y()
            }));
        }
        let just = style.layout.get_justification();
        let mut main_axis: i128 = match just {
            crate::style::layout::Justification::Start => main_start_off,
            crate::style::layout::Justification::SpaceBetween => main_start_off,
            crate::style::layout::Justification::SpaceAround => main_start_off + gap_eff,
            crate::style::layout::Justification::End => main_end_off - cum as i128 - (
            n_gaps as i128) * gap_eff,
            crate::style::layout::Justification::Center => main_start_off + div_trunc(
                leftover - main_pad,
                2,
            ),
        };
        proof {
            match just {
                crate::style::layout::Justification::Start => {
                    assert(main_axis == spec_main_start(self0, li, ri, ti, bi));
                },
                crate::style::layout::Justification::SpaceBetween => {
                    assert(main_axis == spec_main_start(self0, li, ri, ti, bi));
                },
                crate::style::layout::Justification::SpaceAround => {
                    assert(main_axis as int == main_start_off as int + gei);
                    assert(main_axis == spec_main_start(self0, li, ri, ti, bi));
                },
                crate::style::layout::Justification::End => {
                    assert(main_axis as int == main_end_off as int - cum as int - spec_n_gaps(
                        self0,
                    ) * gei);
                    assert(spec_n_gaps(self0) * gei == gei * spec_n_gaps(self0))
                        by (nonlinear_arith);
                    assert(main_axis == spec_main_start(self0, li, ri, ti, bi));
                },
                crate::style::layout::Justification::Center => {
                    assert(main_axis as int == main_start_off as int + crate::elements::tdiv(
                        leftover as int - main_pad as int,
                        2,
                    ));
                    assert(leftover as int - main_pad as int == empty as int - spec_n_gaps(self0)
                        * gei - main_pad as int);
                    assert(spec_n_gaps(self0) * gei == gei * spec_n_gaps(self0))
                        by (nonlinear_arith);
                    assert(main_axis == spec_main_start(self0, li, ri, ti, bi));
                },
            }
        }
        let cross_start_off: i128 = if horizontal {
            top as i128 + style.padding.get_top() as i128
        } else {
            left as i128 + style.padding.get_left() as i128
        };
        let cross_end_off: i128 = if horizontal {
            bottom as i128 - style.padding.get_bottom() as i128
        } else {
            right as i128 - style.padding.get_right() as i128
        };
        let cross_pad: i128 = if horizontal {
            style.padding.y() as i128
        } else {
            style.padding.x() as i128
        };
        let tot_cross: i128 = if horizontal {
            bottom as i128 - top as i128
        } else {
            right as i128 - left as i128
        };
        let usable_cross: i128 = tot_cross - cross_pad;
        let mut i: usize = 0;
        while i < n
            invariant
                children@.len() == n == s0.len() <= MAX_CHILDREN,
                0 <= i <= n,
                self0.spec_children() == s0,
                self0.spec_style() == style,
                self0 == self,
                horizontal == style.spec_has_horizontal_layout(),
                gei == gap_eff as int,
                gei == spec_gap_eff(self0, li, ri, ti, bi),
                0 <= gei <= 0x8_0000_0000_0000i128,
                main_axis == spec_child_main(self0, li, ri, ti, bi, i as int),
                0 <= gei <= 0x5_0000_0000_0000i128,
                -0x100_0000_0000_0000_0000i128 - (i as int) * 0x6_0000_0000_0000i128 <= main_axis
                    <= 0x100_0000_0000_0000_0000i128 + (i as int) * 0x6_0000_0000_0000i128,
                -0x3_0000_0000_0000i128 <= cross_start_off <= 0x3_0000_0000_0000i128,
                -0x3_0000_0000_0000i128 <= cross_end_off <= 0x3_0000_0000_0000i128,
                -0x8_0000_0000_0000i128 <= usable_cross <= 0x8_0000_0000_0000i128,
                cross_start_off == (if horizontal {
                    ti + style.padding.spec_top()
                } else {
                    li + style.padding.spec_left()
                }),
                cross_end_off == (if horizontal {
                    bi - style.padding.spec_bottom()
                } else {
                    ri - style.padding.spec_right()
                }),
                usable_cross == (if horizontal {
                    bi - ti
                } else {
                    ri - li
                }) - (if horizontal {
                    style.padding.spec_y()
                } else {
                    style.padding.spec_x()
                }),
                forall|k: int| i <= k < n ==> children@[k] == s0[k],
                forall|k: int|
                    0 <= k < i ==> node_positioned(
                        s0[k],
                        #[trigger] children@[k],
                        spec_child_x(self0, li, ri, ti, bi, k),
                        spec_child_y(self0, li, ri, ti, bi, k),
                    ) && crate::elements::node_height(children@[k])
                        == crate::elements::node_height(s0[k]),
            decreases n - i,
        {
            let ghost pre = children@;
            let nd = children.remove(i);
            proof {
                use_type_invariant(&nd);
            }
            let cross_size: i128 = if horizontal {
                nd.current_height as i128
            } else {
                nd.current_width as i128
            };
            let main_size: i128 = if horizontal {
                nd.current_width as i128
            } else {
                nd.current_height as i128
            };
            let cross_axis: i128 = match style.layout.get_alignment() {
                crate::style::layout::Alignment::Start => cross_start_off,
                crate::style::layout::Alignment::Stretch => cross_start_off,
                crate::style::layout::Alignment::Center => cross_start_off + div_trunc(
                    usable_cross - cross_size,
                    2,
                ),
                crate::style::layout::Alignment::End => cross_end_off - cross_size,
            };
            proof {
                assert(cross_axis == spec_child_cross(self0, li, ri, ti, bi, i as int));
            }
            let (cx, cy) = if horizontal {
                (clamp_coord_exec(main_axis), clamp_coord_exec(cross_axis))
            } else {
                (clamp_coord_exec(cross_axis), clamp_coord_exec(main_axis))
            };
            proof {
                crate::elements::lemma_nodes_height_ge(s0, i as int);
                assert(crate::elements::node_height(nd) <= crate::elements::nodes_height(s0));
                assert(self0 == self);
            }
            let nd2 = nd.set_position(cx, cy);
            children.insert(i, nd2);
            proof {
                assert(children@ =~= pre.update(i as int, nd2));
                assert(clamp_coord(main_axis as int) == cx as int || !horizontal);
                assert(s0.take(i as int + 1).drop_last() =~= s0.take(i as int));
                assert(s0.take(i as int + 1).last() == s0[i as int]);
            }
            proof {
                assert((i as int + 1) * gei == (i as int) * gei + gei) by (nonlinear_arith);
                assert((i as int + 1) * 0x6_0000_0000_0000i128 == (i as int)
                    * 0x6_0000_0000_0000i128 + 0x6_0000_0000_0000i128) by (nonlinear_arith);
            }
            main_axis = main_axis + main_size + gap_eff;
            i = i + 1;
        }
        let r = FlexBox { style, children };
        proof {
            crate::elements::lemma_nodes_height_congruence(r.spec_children(), s0);
        }
        r
    }
}

/// The sum of a sequence of weights.
pub open spec fn sum_of(fs: Seq<int>) -> int
    decreases fs,
{
    if fs.len() == 0 {
        0
    } else {
        sum_of(fs.drop_last()) + fs.last()
    }
}

/// The total handed out when a budget is split over weights `fs` out of
/// `total`, each share the truncating proportional part `budget * f / total`.
pub open spec fn sum_shares(budget: int, fs: Seq<int>, total: int) -> int
    decreases fs,
{
    if fs.len() == 0 {
        0
    } else {
        sum_shares(budget, fs.drop_last(), total) + crate::elements::tdiv(
            budget * fs.last(),
            total,
        )
    }
}

proof fn lemma_shares_bounds(budget: int, fs: Seq<int>, total: int)
    requires
        0 <= budget,
        0 < total,
        forall|i: int| 0 <= i < fs.len() ==> #[trigger] fs[i] >= 0,
    ensures
        0 <= sum_shares(budget, fs, total),
        total * sum_shares(budget, fs, total) <= budget * sum_of(fs),
        fs.len() > 0 ==> total * sum_shares(budget, fs, total) > budget * sum_of(fs) - total
            * fs.len(),
    decreases fs.len(),
{
    if fs.len() == 0 {
        assert(total * 0 == 0) by (nonlinear_arith);
    } else {
        let rest = fs.drop_last();
        let f = fs.last();
        assert(forall|i: int| 0 <= i < rest.len() ==> rest[i] == #[trigger] fs[i]);
        assert(fs[fs.len() - 1] >= 0);
        assert(f == fs[fs.len() - 1]);
        lemma_shares_bounds(budget, rest, total);
        let p = budget * f;
        assert(budget * f >= 0) by (nonlinear_arith)
            requires
                budget >= 0,
                f >= 0,
        ;
        let q = crate::elements::tdiv(p, total);
        vstd::arithmetic::div_mod::lemma_fundamental_div_mod(p, total);
        assert(0 <= p % total < total) by {
            vstd::arithmetic::div_mod::lemma_mod_bound(p, total);
        }
        assert(q == p / total);
        assert(total * q <= p && total * q > p - total);
        let s_rest = sum_shares(budget, rest, total);
        assert(total * (s_rest + q) == total * s_rest + total * q) by (nonlinear_arith);
        assert(budget * sum_of(fs) == budget * sum_of(rest) + budget * f) by (nonlinear_arith)
            requires
                sum_of(fs) == sum_of(rest) + f,
        ;
        assert(total * fs.len() == total * rest.len() + total) by (nonlinear_arith)
            requires
                fs.len() == rest.len() + 1,
        ;
        assert(q >= 0) by (nonlinear_arith)
            requires
                q == p / total,
                p >= 0,
                total > 0,
        ;
    }
}

/// The distribution law for the shares `share_of` hands the members of one
/// leveling tier in `distribute_main_widths` and `distribute_main_heights`:
/// splitting a non-negative budget over growable siblings by their grow
/// factors gives each one exactly the truncating proportional share
/// `budget * factor / total`, hands out no more than the budget in total,
/// and leaves strictly fewer units unspent than there are siblings. With
/// real division nothing would be left; truncation leaves at most one unit
/// per sibling, and the passes hand the leftover units out one by one.
pub proof fn lemma_proportional_distribution(budget: int, fs: Seq<int>)
    requires
        0 <= budget,
        forall|i: int| 0 <= i < fs.len() ==> #[trigger] fs[i] >= 1,
        sum_of(fs) > 0,
    ensures
        0 <= sum_shares(budget, fs, sum_of(fs)) <= budget,
        budget - sum_shares(budget, fs, sum_of(fs)) < fs.len(),
{
    let total = sum_of(fs);
    lemma_shares_bounds(budget, fs, total);
    let s = sum_shares(budget, fs, total);
    assert(total * s <= budget * total ==> s <= budget) by (nonlinear_arith)
        requires
            total > 0,
    ;
    assert(total * s > budget * total - total * fs.len() ==> s > budget - fs.len())
        by (nonlinear_arith)
        requires
            total > 0,
    ;
    assert(budget * sum_of(fs) == budget * total);
}

/// Two trees agree on every absolute position, level by level.
pub open spec fn positions_agree_node(a: KaolinNode, b: KaolinNode) -> bool
    decreases a,
{
    &&& b.spec_x() == a.spec_x()
    &&& b.spec_y() == a.spec_y()
    &&& match (a.spec_element(), b.spec_element()) {
        (KaolinElement::Flex(fa), KaolinElement::Flex(fb)) => positions_agree_flex(fa, fb),
        _ => true,
    }
}

/// Two containers agree on every child's absolute position, recursively.
pub open spec fn positions_agree_flex(fa: FlexBox, fb: FlexBox) -> bool
    decreases fa,
{
    &&& fb.spec_children().len() == fa.spec_children().len()
    &&& forall|i: int|
        0 <= i < fa.spec_children().len() ==> positions_agree_node(
            fa.spec_children()[i],
            #[trigger] fb.spec_children()[i],
        )
}

/// The position pass is idempotent: positioning a tree whose sizes are final
/// assigns coordinates that depend only on those sizes and the bounds, so
/// positioning the result again against the same bounds reproduces exactly
/// the same coordinates for every node of the subtree, since the nested
/// bounds are rebuilt from the same positions and sizes.
pub proof fn lemma_position_pass_idempotent(
    f: FlexBox,
    g: FlexBox,
    h: FlexBox,
    l: int,
    r: int,
    t: int,
    b: int,
)
    requires
        flex_positioned(f, g, l, r, t, b),
        flex_positioned(g, h, l, r, t, b),
    ensures
        positions_agree_flex(g, h),
        forall|i: int|
            0 <= i < h.spec_children().len() ==> (#[trigger] h.spec_children()[i]).spec_x()
                == g.spec_children()[i].spec_x() && h.spec_children()[i].spec_y()
                == g.spec_children()[i].spec_y(),
    decreases f,
{
    let n = f.spec_children().len() as int;
    assert(forall|k: int|
        0 <= k < n ==> (#[trigger] g.spec_children()[k]).spec_width()
            == f.spec_children()[k].spec_width() && g.spec_children()[k].spec_height()
            == f.spec_children()[k].spec_height());
    lemma_sum_widths_congruence(g.spec_children(), f.spec_children());
    lemma_sum_heights_congruence(g.spec_children(), f.spec_children());
    assert(spec_cum_main(g) == spec_cum_main(f));
    assert(spec_gap_eff(g, l, r, t, b) == spec_gap_eff(f, l, r, t, b));
    assert(spec_main_start(g, l, r, t, b) == spec_main_start(f, l, r, t, b));
    assert forall|i: int| 0 <= i < h.spec_children().len() implies (
    #[trigger] h.spec_children()[i]).spec_x() == g.spec_children()[i].spec_x() && h.spec_children()[
        i
    ].spec_y() == g.spec_children()[i].spec_y() by {
        assert(forall|k: int|
            0 <= k < i ==> (#[trigger] g.spec_children().take(i)[k])
                == g.spec_children()[k] && f.spec_children().take(i)[k] == f.spec_children()[k]);
        lemma_sum_widths_congruence(g.spec_children().take(i), f.spec_children().take(i));
        lemma_sum_heights_congruence(g.spec_children().take(i), f.spec_children().take(i));
        assert(spec_prefix_main(g, i) == spec_prefix_main(f, i));
        assert(spec_child_main(g, l, r, t, b, i) == spec_child_main(f, l, r, t, b, i));
        assert(spec_child_cross_size(g, i) == spec_child_cross_size(f, i));
        assert(spec_child_cross(g, l, r, t, b, i) == spec_child_cross(f, l, r, t, b, i));
        assert(spec_child_x(g, l, r, t, b, i) == spec_child_x(f, l, r, t, b, i));
        assert(spec_child_y(g, l, r, t, b, i) == spec_child_y(f, l, r, t, b, i));
    }
    assert forall|i: int| 0 <= i < g.spec_children().len() implies positions_agree_node(
        g.spec_children()[i],
        #[trigger] h.spec_children()[i],
    ) by {
        let fc = f.spec_children()[i];
        let gc = g.spec_children()[i];
        let hc = h.spec_children()[i];
        let x = spec_child_x(f, l, r, t, b, i);
        let y = spec_child_y(f, l, r, t, b, i);
        assert(node_positioned(fc, gc, x, y));
        assert(node_positioned(gc, hc, spec_child_x(g, l, r, t, b, i), spec_child_y(
            g,
            l,
            r,
            t,
            b,
            i,
        )));
        assert(hc.spec_x() == gc.spec_x() && hc.spec_y() == gc.spec_y());
        match (gc.spec_element(), hc.spec_element()) {
            (KaolinElement::Flex(gf), KaolinElement::Flex(hf)) => {
                match fc.spec_element() {
                    KaolinElement::Flex(ff) => {
                        assert(flex_positioned(ff, gf, clamp_coord(x), clamp_coord(x)
                            + fc.spec_width(), clamp_coord(y), clamp_coord(y)
                            + fc.spec_height()));
                        assert(flex_positioned(gf, hf, clamp_coord(x), clamp_coord(x)
                            + fc.spec_width(), clamp_coord(y), clamp_coord(y)
                            + fc.spec_height()));
                        lemma_position_pass_idempotent(ff, gf, hf, clamp_coord(x), clamp_coord(
                            x,
                        ) + fc.spec_width(), clamp_coord(y), clamp_coord(y) + fc.spec_height());
                    },
                    KaolinElement::Text(_) => {
                        assert(false);
                    },
                }
            },
            _ => {},
        }
    }
}

/// A ghost helper naming the node with the given parts.
pub open(crate) spec fn spec_make_node(
    element: KaolinElement,
    sizing_w: SizingDimensions,
    sizing_h: SizingDimensions,
    growable_width: bool,
    growable_height: bool,
    shrinkable: bool,
    current_width: int,
    current_height: int,
) -> KaolinNode {
    KaolinNode {
        element,
        sizing_w,
        sizing_h,
        growable_width,
        growable_height,
        shrinkable,
        current_width: current_width as i64,
        current_height: current_height as i64,
        x: 0,
        y: 0,
    }
}

} // verus!
