//! The layout tree: nodes, their transient layout state, and group queries.

pub mod flexbox;
pub mod text;

use vstd::prelude::*;
use crate::elements::flexbox::FlexBox;
use crate::elements::text::TextElement;
use crate::style::sizing::MAX_DIM;
use crate::style::sizing::SizingDimensions;

verus! {

/// Ceiling on the number of children one container can hold.
pub const MAX_CHILDREN: usize = 0x1_0000;

/// Ceiling on the magnitude of an absolute coordinate.
pub const MAX_COORD: i64 = 0x1_0000_0000_0000;

/// Sentinel standing for "no such size": one more than any size can be.
pub const NO_SIZE: i64 = 0x1_0000_0001;

/// Truncating division: the quotient rounded towards zero, as Rust's `/`
/// computes it on signed integers.
pub open spec fn tdiv(a: int, b: int) -> int {
    if a >= 0 {
        a / b
    } else {
        -((-a) / b)
    }
}

/// A coordinate brought into `[-MAX_COORD, MAX_COORD]`.
pub open spec fn clamp_coord(v: int) -> int {
    if v < -MAX_COORD {
        -MAX_COORD as int
    } else if v > MAX_COORD {
        MAX_COORD as int
    } else {
        v
    }
}

/// One element of the layout tree: a flex container or a text run.
pub enum KaolinElement {
    /// A flex container with its own children.
    Flex(FlexBox),
    /// A text run.
    Text(TextElement),
}

/// A node of the layout tree: one element together with its transient layout
/// state for the current draw.
pub struct KaolinNode {
    pub(crate) element: KaolinElement,
    pub(crate) sizing_w: SizingDimensions,
    pub(crate) sizing_h: SizingDimensions,
    pub(crate) growable_width: bool,
    pub(crate) growable_height: bool,
    pub(crate) shrinkable: bool,
    pub(crate) current_width: i64,
    pub(crate) current_height: i64,
    pub(crate) x: i64,
    pub(crate) y: i64,
}

/// The height of a node in the tree: one more than its element's height.
pub open(crate) spec fn node_height(n: KaolinNode) -> nat
    decreases n,
{
    elem_height(n.element) + 1
}

/// The height of an element: text runs are leaves.
pub open(crate) spec fn elem_height(e: KaolinElement) -> nat
    decreases e,
{
    match e {
        KaolinElement::Text(_) => 0,
        KaolinElement::Flex(f) => flex_height(f),
    }
}

/// The height of a container: one more than its tallest child.
pub open(crate) spec fn flex_height(f: FlexBox) -> nat
    decreases f,
{
    nodes_height(f.children@) + 1
}

/// The tallest height among a sequence of nodes.
pub open(crate) spec fn nodes_height(s: Seq<KaolinNode>) -> nat
    decreases s,
{
    if s.len() == 0 {
        0
    } else {
        let rest = nodes_height(s.drop_last());
        let h = node_height(s.last());
        if h > rest {
            h
        } else {
            rest
        }
    }
}

/// Every node's height bounds the height of the sequence holding it.
pub proof fn lemma_nodes_height_ge(s: Seq<KaolinNode>, i: int)
    requires
        0 <= i < s.len(),
    ensures
        node_height(s[i]) <= nodes_height(s),
    decreases s.len(),
{
    if i == s.len() - 1 {
        assert(s.last() == s[i]);
    } else {
        lemma_nodes_height_ge(s.drop_last(), i);
        assert(s.drop_last()[i] == s[i]);
    }
}

/// Sequences whose nodes have pointwise equal heights have equal heights.
pub proof fn lemma_nodes_height_congruence(s1: Seq<KaolinNode>, s2: Seq<KaolinNode>)
    requires
        s1.len() == s2.len(),
        forall|i: int| 0 <= i < s1.len() ==> node_height(s1[i]) == node_height(#[trigger] s2[i]),
    ensures
        nodes_height(s1) == nodes_height(s2),
    decreases s1.len(),
{
    if s1.len() > 0 {
        lemma_nodes_height_congruence(s1.drop_last(), s2.drop_last());
        assert(forall|i: int|
            0 <= i < s1.len() - 1 ==> s1.drop_last()[i] == s1[i] && s2.drop_last()[i] == #[trigger] s2[i]);
        assert(s1.last() == s1[s1.len() - 1]);
        assert(s2.last() == s2[s1.len() - 1]);
    }
}

/// The sum of the current widths of the nodes.
pub open spec fn sum_widths(s: Seq<KaolinNode>) -> int
    decreases s,
{
    if s.len() == 0 {
        0
    } else {
        sum_widths(s.drop_last()) + s.last().spec_width()
    }
}

/// The sum of the current heights of the nodes.
pub open spec fn sum_heights(s: Seq<KaolinNode>) -> int
    decreases s,
{
    if s.len() == 0 {
        0
    } else {
        sum_heights(s.drop_last()) + s.last().spec_height()
    }
}

/// The largest current width among the nodes, 0 when there are none.
pub open spec fn max_width_of(s: Seq<KaolinNode>) -> int
    decreases s,
{
    if s.len() == 0 {
        0
    } else {
        let rest = max_width_of(s.drop_last());
        if s.last().spec_width() > rest {
            s.last().spec_width()
        } else {
            rest
        }
    }
}

/// The largest current height among the nodes, 0 when there are none.
pub open spec fn max_height_of(s: Seq<KaolinNode>) -> int
    decreases s,
{
    if s.len() == 0 {
        0
    } else {
        let rest = max_height_of(s.drop_last());
        if s.last().spec_height() > rest {
            s.last().spec_height()
        } else {
            rest
        }
    }
}

/// The number of gaps between adjacent nodes: one fewer than the nodes,
/// 0 when there are none.
pub open spec fn gaps_of(s: Seq<KaolinNode>) -> int {
    if s.len() == 0 {
        0
    } else {
        s.len() - 1
    }
}

/// The smallest current width among nodes still growable in width;
/// `NO_SIZE` when there is none.
pub open spec fn min_growable_width(s: Seq<KaolinNode>) -> int
    decreases s,
{
    if s.len() == 0 {
        NO_SIZE as int
    } else {
        let rest = min_growable_width(s.drop_last());
        if s.last().spec_growable_width() && s.last().spec_width() < rest {
            s.last().spec_width()
        } else {
            rest
        }
    }
}

/// The smallest current width strictly above `lo` among nodes still growable
/// in width; `NO_SIZE` when there is none.
pub open spec fn min_growable_width_above(s: Seq<KaolinNode>, lo: int) -> int
    decreases s,
{
    if s.len() == 0 {
        NO_SIZE as int
    } else {
        let rest = min_growable_width_above(s.drop_last(), lo);
        if s.last().spec_growable_width() && lo < s.last().spec_width() < rest {
            s.last().spec_width()
        } else {
            rest
        }
    }
}

/// The largest current width among nodes still shrinkable; 0 when there is
/// none.
pub open spec fn max_shrinkable_width(s: Seq<KaolinNode>) -> int
    decreases s,
{
    if s.len() == 0 {
        0
    } else {
        let rest = max_shrinkable_width(s.drop_last());
        if s.last().spec_shrinkable() && s.last().spec_width() > rest {
            s.last().spec_width()
        } else {
            rest
        }
    }
}

/// The largest current width strictly below `hi` among nodes still
/// shrinkable; 0 when there is none.
pub open spec fn max_shrinkable_width_below(s: Seq<KaolinNode>, hi: int) -> int
    decreases s,
{
    if s.len() == 0 {
        0
    } else {
        let rest = max_shrinkable_width_below(s.drop_last(), hi);
        if s.last().spec_shrinkable() && rest < s.last().spec_width() < hi {
            s.last().spec_width()
        } else {
            rest
        }
    }
}

/// The smallest current height among nodes still growable in height;
/// `NO_SIZE` when there is none.
pub open spec fn min_growable_height(s: Seq<KaolinNode>) -> int
    decreases s,
{
    if s.len() == 0 {
        NO_SIZE as int
    } else {
        let rest = min_growable_height(s.drop_last());
        if s.last().spec_growable_height() && s.last().spec_height() < rest {
            s.last().spec_height()
        } else {
            rest
        }
    }
}

/// The smallest current height strictly above `lo` among nodes still growable
/// in height; `NO_SIZE` when there is none.
pub open spec fn min_growable_height_above(s: Seq<KaolinNode>, lo: int) -> int
    decreases s,
{
    if s.len() == 0 {
        NO_SIZE as int
    } else {
        let rest = min_growable_height_above(s.drop_last(), lo);
        if s.last().spec_growable_height() && lo < s.last().spec_height() < rest {
            s.last().spec_height()
        } else {
            rest
        }
    }
}

/// The sum of the width grow factors of nodes still growable in width whose
/// current width is exactly `w`.
pub open spec fn sum_grow_factors_w_at(s: Seq<KaolinNode>, w: int) -> int
    decreases s,
{
    if s.len() == 0 {
        0
    } else {
        sum_grow_factors_w_at(s.drop_last(), w) + if s.last().spec_growable_width()
            && s.last().spec_width() == w {
            s.last().spec_sizing_w().spec_grow_factor()
        } else {
            0
        }
    }
}

/// The number of nodes still shrinkable whose current width is exactly `w`.
pub open spec fn count_shrinkable_at(s: Seq<KaolinNode>, w: int) -> int
    decreases s,
{
    if s.len() == 0 {
        0
    } else {
        count_shrinkable_at(s.drop_last(), w) + if s.last().spec_shrinkable()
            && s.last().spec_width() == w {
            1int
        } else {
            0int
        }
    }
}

/// The sum of the height grow factors of nodes still growable in height whose
/// current height is exactly `h`.
pub open spec fn sum_grow_factors_h_at(s: Seq<KaolinNode>, h: int) -> int
    decreases s,
{
    if s.len() == 0 {
        0
    } else {
        sum_grow_factors_h_at(s.drop_last(), h) + if s.last().spec_growable_height()
            && s.last().spec_height() == h {
            s.last().spec_sizing_h().spec_grow_factor()
        } else {
            0
        }
    }
}

/// A prefix one element longer splits into the shorter prefix and that
/// element.
pub proof fn lemma_take_snoc(s: Seq<KaolinNode>, i: int)
    requires
        0 <= i < s.len(),
    ensures
        s.take(i + 1).drop_last() == s.take(i),
        s.take(i + 1).last() == s[i],
{
    assert(s.take(i + 1).drop_last() =~= s.take(i));
}

impl KaolinNode {
    #[verifier::type_invariant]
    pub(crate) open spec fn inv(self) -> bool {
        &&& self.sizing_w.spec_min() <= self.current_width as int <= self.sizing_w.spec_max()
        &&& self.sizing_h.spec_min() <= self.current_height as int <= self.sizing_h.spec_max()
        &&& 0 <= self.current_width <= MAX_DIM
        &&& 0 <= self.current_height <= MAX_DIM
        &&& -MAX_COORD <= self.x <= MAX_COORD
        &&& -MAX_COORD <= self.y <= MAX_COORD
        &&& match self.element {
            KaolinElement::Flex(f) => f.children@.len() <= MAX_CHILDREN,
            KaolinElement::Text(_) => true,
        }
    }

    /// The element this node wraps.
    pub open(crate) spec fn spec_element(self) -> KaolinElement {
        self.element
    }

    /// The current width of the node.
    pub open(crate) spec fn spec_width(self) -> int {
        self.current_width as int
    }

    /// The current height of the node.
    pub open(crate) spec fn spec_height(self) -> int {
        self.current_height as int
    }

    /// The absolute horizontal position of the node.
    pub open(crate) spec fn spec_x(self) -> int {
        self.x as int
    }

    /// The absolute vertical position of the node.
    pub open(crate) spec fn spec_y(self) -> int {
        self.y as int
    }

    /// True while the node may still grow horizontally in the current pass.
    pub open(crate) spec fn spec_growable_width(self) -> bool {
        self.growable_width
    }

    /// True while the node may still grow vertically in the current pass.
    pub open(crate) spec fn spec_growable_height(self) -> bool {
        self.growable_height
    }

    /// True while the node may still shrink in the current pass.
    pub open(crate) spec fn spec_shrinkable(self) -> bool {
        self.shrinkable
    }

    /// The width constraints of the node.
    pub open(crate) spec fn spec_sizing_w(self) -> SizingDimensions {
        self.sizing_w
    }

    /// The height constraints of the node.
    pub open(crate) spec fn spec_sizing_h(self) -> SizingDimensions {
        self.sizing_h
    }

    /// Everything but the transient width state is unchanged.
    pub open spec fn same_but_width(self, other: KaolinNode) -> bool {
        &&& self.spec_element() == other.spec_element()
        &&& self.spec_sizing_w() == other.spec_sizing_w()
        &&& self.spec_sizing_h() == other.spec_sizing_h()
        &&& self.spec_height() == other.spec_height()
        &&& self.spec_growable_height() == other.spec_growable_height()
        &&& self.spec_x() == other.spec_x()
        &&& self.spec_y() == other.spec_y()
    }

    /// Everything but the transient height state is unchanged.
    pub open spec fn same_but_height(self, other: KaolinNode) -> bool {
        &&& self.spec_element() == other.spec_element()
        &&& self.spec_sizing_w() == other.spec_sizing_w()
        &&& self.spec_sizing_h() == other.spec_sizing_h()
        &&& self.spec_width() == other.spec_width()
        &&& self.spec_growable_width() == other.spec_growable_width()
        &&& self.spec_shrinkable() == other.spec_shrinkable()
        &&& self.spec_x() == other.spec_x()
        &&& self.spec_y() == other.spec_y()
    }

    /// The grow factors of the node, `(width, height)`.
    pub fn get_grow_factor(&self) -> (r: (i64, i64))
        ensures
            r.0 == self.spec_sizing_w().spec_grow_factor(),
            r.1 == self.spec_sizing_h().spec_grow_factor(),
            0 <= r.0 <= crate::style::sizing::MAX_FACTOR,
            0 <= r.1 <= crate::style::sizing::MAX_FACTOR,
    {
        (self.sizing_w.get_grow_factor(), self.sizing_h.get_grow_factor())
    }

    /// Grows (or, with a negative `limit`, shrinks) the width of the node,
    /// clamped to its own bounds, returning the change actually applied.
    ///
    /// A node whose bound cuts the change short drops its growable or
    /// shrinkable flag; a node with no capacity left drops both.
    pub fn grow_width(&mut self, limit: i64) -> (applied: i64)
        ensures
            ({
                let amount = old(self).spec_sizing_w().spec_clamped(
                    old(self).spec_width() + limit,
                ) - old(self).spec_width();
                &&& final(self).spec_width() == old(self).spec_width() + applied
                &&& final(self).same_but_width(*old(self))
                &&& if old(self).spec_growable_width() && amount > 0 {
                    &&& applied == amount
                    &&& final(self).spec_growable_width() == (amount == limit)
                    &&& final(self).spec_shrinkable() == old(self).spec_shrinkable()
                } else if old(self).spec_shrinkable() && amount < 0 {
                    &&& applied == amount
                    &&& final(self).spec_shrinkable() == (amount == limit)
                    &&& final(self).spec_growable_width() == old(self).spec_growable_width()
                } else {
                    &&& applied == 0
                    &&& !final(self).spec_growable_width()
                    &&& !final(self).spec_shrinkable()
                }
                &&& old(self).spec_sizing_w().spec_min() <= final(self).spec_width()
                    <= old(self).spec_sizing_w().spec_max()
                &&& 0 <= final(self).spec_width() <= MAX_DIM
            }),
    {
        proof {
            use_type_invariant(&*self);
            use_type_invariant(&self.sizing_w);
        }
        let target: i64 = self.sizing_w.clamped(
            if limit >= 0 {
                if self.current_width <= MAX_DIM && limit >= MAX_DIM {
                    // the clamp ceiling is MAX_DIM, so any huge target clamps alike
                    self.current_width + MAX_DIM
                } else {
                    self.current_width + limit
                }
            } else {
                if limit <= -MAX_DIM {
                    self.current_width - MAX_DIM
                } else {
                    self.current_width + limit
                }
            },
        );
        let amount = target - self.current_width;
        if self.growable_width && amount > 0 {
            self.current_width = self.current_width + amount;
            if amount != limit {
                self.growable_width = false;
            }
            amount
        } else if self.shrinkable && amount < 0 {
            self.current_width = self.current_width + amount;
            if amount != limit {
                self.shrinkable = false;
            }
            amount
        } else {
            self.growable_width = false;
            self.shrinkable = false;
            0
        }
    }

    /// Drops the node out of the height growth pass: a node with no capacity
    /// or weight left can receive nothing more.
    pub fn clear_growable_height(&mut self)
        ensures
            final(self).same_but_height(*old(self)),
            final(self).spec_height() == old(self).spec_height(),
            !final(self).spec_growable_height(),
    {
        proof {
            use_type_invariant(&*self);
        }
        self.growable_height = false;
    }

    /// Grows the height of the node, clamped to its own bounds, returning the
    /// growth actually applied. Heights only ever grow.
    pub fn grow_height(&mut self, limit: i64) -> (applied: i64)
        requires
            0 < limit,
        ensures
            ({
                let amount = old(self).spec_sizing_h().spec_clamped(
                    old(self).spec_height() + limit,
                ) - old(self).spec_height();
                &&& final(self).spec_height() == old(self).spec_height() + applied
                &&& final(self).same_but_height(*old(self))
                &&& if old(self).spec_growable_height() && amount > 0 {
                    &&& applied == amount
                    &&& final(self).spec_growable_height() == (amount == limit)
                } else {
                    &&& applied == 0
                    &&& !final(self).spec_growable_height()
                }
                &&& 0 <= final(self).spec_height() <= MAX_DIM
            }),
    {
        proof {
            use_type_invariant(&*self);
            use_type_invariant(&self.sizing_h);
        }
        let target: i64 = self.sizing_h.clamped(
            if self.current_height <= MAX_DIM && limit >= MAX_DIM {
                self.current_height + MAX_DIM
            } else {
                self.current_height + limit
            },
        );
        let amount = target - self.current_height;
        if self.growable_height && amount > 0 {
            self.current_height = self.current_height + amount;
            if amount != limit {
                self.growable_height = false;
            }
            amount
        } else {
            self.growable_height = false;
            0
        }
    }
}

/// The cumulative current width of the nodes.
pub fn cumulative_width(nodes: &Vec<KaolinNode>) -> (r: i64)
    requires
        nodes@.len() <= MAX_CHILDREN,
    ensures
        r == sum_widths(nodes@),
        0 <= r <= nodes@.len() * MAX_DIM,
{
    let ghost s = nodes@;
    let mut acc: i64 = 0;
    let n = nodes.len();
    for i in 0..n
        invariant
            s == nodes@,
            n == s.len() <= MAX_CHILDREN,
            acc == sum_widths(s.take(i as int)),
            0 <= acc <= i * MAX_DIM,
    {
        let c = &nodes[i];
        proof {
            use_type_invariant(c);
            lemma_take_snoc(s, i as int);
        }
        acc = acc + c.current_width;
    }
    proof {
        assert(s.take(n as int) =~= s);
    }
    acc
}

/// The cumulative current height of the nodes.
pub fn cumulative_height(nodes: &Vec<KaolinNode>) -> (r: i64)
    requires
        nodes@.len() <= MAX_CHILDREN,
    ensures
        r == sum_heights(nodes@),
        0 <= r <= nodes@.len() * MAX_DIM,
{
    let ghost s = nodes@;
    let mut acc: i64 = 0;
    let n = nodes.len();
    for i in 0..n
        invariant
            s == nodes@,
            n == s.len() <= MAX_CHILDREN,
            acc == sum_heights(s.take(i as int)),
            0 <= acc <= i * MAX_DIM,
    {
        let c = &nodes[i];
        proof {
            use_type_invariant(c);
            lemma_take_snoc(s, i as int);
        }
        acc = acc + c.current_height;
    }
    proof {
        assert(s.take(n as int) =~= s);
    }
    acc
}

/// The largest current width among the nodes.
pub fn max_width(nodes: &Vec<KaolinNode>) -> (r: i64)
    ensures
        r == max_width_of(nodes@),
        0 <= r <= MAX_DIM,
{
    let ghost s = nodes@;
    let mut acc: i64 = 0;
    let n = nodes.len();
    for i in 0..n
        invariant
            s == nodes@,
            n == s.len(),
            acc == max_width_of(s.take(i as int)),
            0 <= acc <= MAX_DIM,
    {
        let c = &nodes[i];
        proof {
            use_type_invariant(c);
            lemma_take_snoc(s, i as int);
        }
        if c.current_width > acc {
            acc = c.current_width;
        }
    }
    proof {
        assert(s.take(n as int) =~= s);
    }
    acc
}

/// The largest current height among the nodes.
pub fn max_height(nodes: &Vec<KaolinNode>) -> (r: i64)
    ensures
        r == max_height_of(nodes@),
        0 <= r <= MAX_DIM,
{
    let ghost s = nodes@;
    let mut acc: i64 = 0;
    let n = nodes.len();
    for i in 0..n
        invariant
            s == nodes@,
            n == s.len(),
            acc == max_height_of(s.take(i as int)),
            0 <= acc <= MAX_DIM,
    {
        let c = &nodes[i];
        proof {
            use_type_invariant(c);
            lemma_take_snoc(s, i as int);
        }
        if c.current_height > acc {
            acc = c.current_height;
        }
    }
    proof {
        assert(s.take(n as int) =~= s);
    }
    acc
}

/// The number of gaps between adjacent nodes.
pub fn gaps(nodes: &Vec<KaolinNode>) -> (r: usize)
    ensures
        r == gaps_of(nodes@),
{
    if nodes.len() == 0 {
        0
    } else {
        nodes.len() - 1
    }
}

/// The smallest and second smallest current widths among nodes still
/// growable in width; `NO_SIZE` stands for "none".
pub fn get_smallest_widths(nodes: &Vec<KaolinNode>) -> (r: (i64, i64))
    ensures
        r.0 == min_growable_width(nodes@),
        r.1 == min_growable_width_above(nodes@, r.0 as int),
        r.0 == NO_SIZE || 0 <= r.0 <= MAX_DIM,
        r.1 == NO_SIZE || (0 <= r.1 <= MAX_DIM && r.1 > r.0),
{
    let ghost s = nodes@;
    let n = nodes.len();
    let mut smallest: i64 = NO_SIZE;
    for i in 0..n
        invariant
            s == nodes@,
            n == s.len(),
            smallest == min_growable_width(s.take(i as int)),
            smallest == NO_SIZE || 0 <= smallest <= MAX_DIM,
    {
        let c = &nodes[i];
        proof {
            use_type_invariant(c);
            lemma_take_snoc(s, i as int);
        }
        if c.growable_width && c.current_width < smallest {
            smallest = c.current_width;
        }
    }
    let ghost lo = smallest as int;
    let mut second: i64 = NO_SIZE;
    for i in 0..n
        invariant
            s == nodes@,
            n == s.len(),
            smallest == lo,
            second == min_growable_width_above(s.take(i as int), lo),
            second == NO_SIZE || (0 <= second <= MAX_DIM && second > smallest),
    {
        let c = &nodes[i];
        proof {
            use_type_invariant(c);
            lemma_take_snoc(s, i as int);
        }
        if c.growable_width && c.current_width > smallest && c.current_width < second {
            second = c.current_width;
        }
    }
    proof {
        assert(s.take(n as int) =~= s);
    }
    (smallest, second)
}

/// The largest and second largest current widths among nodes still
/// shrinkable; 0 stands for "none".
pub fn get_biggest_widths(nodes: &Vec<KaolinNode>) -> (r: (i64, i64))
    ensures
        r.0 == max_shrinkable_width(nodes@),
        r.1 == max_shrinkable_width_below(nodes@, r.0 as int),
        0 <= r.0 <= MAX_DIM,
        0 <= r.1 <= r.0,
{
    let ghost s = nodes@;
    let n = nodes.len();
    let mut biggest: i64 = 0;
    for i in 0..n
        invariant
            s == nodes@,
            n == s.len(),
            biggest == max_shrinkable_width(s.take(i as int)),
            0 <= biggest <= MAX_DIM,
    {
        let c = &nodes[i];
        proof {
            use_type_invariant(c);
            lemma_take_snoc(s, i as int);
        }
        if c.shrinkable && c.current_width > biggest {
            biggest = c.current_width;
        }
    }
    let ghost hi = biggest as int;
    let mut second: i64 = 0;
    for i in 0..n
        invariant
            s == nodes@,
            n == s.len(),
            biggest == hi,
            second == max_shrinkable_width_below(s.take(i as int), hi),
            0 <= second <= biggest,
    {
        let c = &nodes[i];
        proof {
            use_type_invariant(c);
            lemma_take_snoc(s, i as int);
        }
        if c.shrinkable && c.current_width < biggest && c.current_width > second {
            second = c.current_width;
        }
    }
    proof {
        assert(s.take(n as int) =~= s);
    }
    (biggest, second)
}

/// The smallest and second smallest current heights among nodes still
/// growable in height; `NO_SIZE` stands for "none".
pub fn get_smallest_heights(nodes: &Vec<KaolinNode>) -> (r: (i64, i64))
    ensures
        r.0 == min_growable_height(nodes@),
        r.1 == min_growable_height_above(nodes@, r.0 as int),
        r.0 == NO_SIZE || 0 <= r.0 <= MAX_DIM,
        r.1 == NO_SIZE || (0 <= r.1 <= MAX_DIM && r.1 > r.0),
{
    let ghost s = nodes@;
    let n = nodes.len();
    let mut smallest: i64 = NO_SIZE;
    for i in 0..n
        invariant
            s == nodes@,
            n == s.len(),
            smallest == min_growable_height(s.take(i as int)),
            smallest == NO_SIZE || 0 <= smallest <= MAX_DIM,
    {
        let c = &nodes[i];
        proof {
            use_type_invariant(c);
            lemma_take_snoc(s, i as int);
        }
        if c.growable_height && c.current_height < smallest {
            smallest = c.current_height;
        }
    }
    let ghost lo = smallest as int;
    let mut second: i64 = NO_SIZE;
    for i in 0..n
        invariant
            s == nodes@,
            n == s.len(),
            smallest == lo,
            second == min_growable_height_above(s.take(i as int), lo),
            second == NO_SIZE || (0 <= second <= MAX_DIM && second > smallest),
    {
        let c = &nodes[i];
        proof {
            use_type_invariant(c);
            lemma_take_snoc(s, i as int);
        }
        if c.growable_height && c.current_height > smallest && c.current_height < second {
            second = c.current_height;
        }
    }
    proof {
        assert(s.take(n as int) =~= s);
    }
    (smallest, second)
}

/// The total width grow factor of the nodes still growable in width whose
/// current width is exactly `w`.
pub fn total_grow_factor_w_at(nodes: &Vec<KaolinNode>, w: i64) -> (r: i64)
    requires
        nodes@.len() <= MAX_CHILDREN,
    ensures
        r == sum_grow_factors_w_at(nodes@, w as int),
        0 <= r <= nodes@.len() * crate::style::sizing::MAX_FACTOR,
{
    let ghost s = nodes@;
    let n = nodes.len();
    let mut acc: i64 = 0;
    for i in 0..n
        invariant
            s == nodes@,
            n == s.len() <= MAX_CHILDREN,
            acc == sum_grow_factors_w_at(s.take(i as int), w as int),
            0 <= acc <= i * crate::style::sizing::MAX_FACTOR,
    {
        let c = &nodes[i];
        proof {
            lemma_take_snoc(s, i as int);
        }
        if c.growable_width && c.current_width == w {
            acc = acc + c.sizing_w.get_grow_factor();
        }
    }
    proof {
        assert(s.take(n as int) =~= s);
    }
    acc
}

/// The number of nodes still shrinkable whose current width is exactly `w`.
pub fn total_shrinkable_at(nodes: &Vec<KaolinNode>, w: i64) -> (r: i64)
    requires
        nodes@.len() <= MAX_CHILDREN,
    ensures
        r == count_shrinkable_at(nodes@, w as int),
        0 <= r <= nodes@.len(),
{
    let ghost s = nodes@;
    let n = nodes.len();
    let mut acc: i64 = 0;
    for i in 0..n
        invariant
            s == nodes@,
            n == s.len() <= MAX_CHILDREN,
            acc == count_shrinkable_at(s.take(i as int), w as int),
            0 <= acc <= i,
    {
        let c = &nodes[i];
        proof {
            lemma_take_snoc(s, i as int);
        }
        if c.shrinkable && c.current_width == w {
            acc = acc + 1;
        }
    }
    proof {
        assert(s.take(n as int) =~= s);
    }
    acc
}

/// The total height grow factor of the nodes still growable in height whose
/// current height is exactly `h`.
pub fn total_grow_factor_h_at(nodes: &Vec<KaolinNode>, h: i64) -> (r: i64)
    requires
        nodes@.len() <= MAX_CHILDREN,
    ensures
        r == sum_grow_factors_h_at(nodes@, h as int),
        0 <= r <= nodes@.len() * crate::style::sizing::MAX_FACTOR,
{
    let ghost s = nodes@;
    let n = nodes.len();
    let mut acc: i64 = 0;
    for i in 0..n
        invariant
            s == nodes@,
            n == s.len() <= MAX_CHILDREN,
            acc == sum_grow_factors_h_at(s.take(i as int), h as int),
            0 <= acc <= i * crate::style::sizing::MAX_FACTOR,
    {
        let c = &nodes[i];
        proof {
            lemma_take_snoc(s, i as int);
        }
        if c.growable_height && c.current_height == h {
            acc = acc + c.sizing_h.get_grow_factor();
        }
    }
    proof {
        assert(s.take(n as int) =~= s);
    }
    acc
}

} // verus!
