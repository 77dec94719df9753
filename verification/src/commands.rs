//! Rendering commands: the ordered drawing instructions a renderer consumes.

use vstd::prelude::*;
use vstd::string::StrSliceExecFns;
use vstd::string::StringExecFns;
use crate::elements::flexbox::FlexBox;
use crate::elements::KaolinElement;
use crate::elements::KaolinNode;
use crate::elements::MAX_CHILDREN;
use crate::elements::MAX_COORD;
use crate::elements::node_height;
use crate::elements::text::TextElement;
use crate::elements::text::spec_trimmed;
use crate::elements::text::trim_start_len;
use crate::elements::text::trim_end_index;
use crate::elements::text::trim_start_index;
use crate::measure::TextMeasure;
use crate::style::KaolinColor;
use crate::style::border::Border;
use crate::style::colors::Color;
use crate::style::sizing::MAX_DIM;

verus! {

/// A single rendering command.
pub enum RenderCommand {
    /// Draws a rectangle.
    DrawRectangle {
        /// An identifier carried through for the renderer; unused by layout.
        id: String,
        /// The absolute x position of the rectangle.
        x: i64,
        /// The absolute y position of the rectangle.
        y: i64,
        /// The width of the rectangle.
        width: i64,
        /// The height of the rectangle.
        height: i64,
        /// The background color of the rectangle.
        color: Color,
        /// The corner radius of the rectangle.
        corner_radius: i64,
        /// The border of the rectangle.
        border: Border,
    },
    /// Draws one already-wrapped line of text.
    DrawText {
        /// The line to draw, trimmed of surrounding white space.
        text: String,
        /// The absolute x position of the line.
        x: i64,
        /// The absolute y position of the line.
        y: i64,
        /// The font the renderer should use.
        font_id: u32,
        /// The font size.
        font_size: i64,
        /// The color of the text.
        color: Color,
    },
}

/// The mathematical model of one rendering command.
pub enum CommandModel {
    /// A rectangle.
    Rect {
        id: Seq<char>,
        x: int,
        y: int,
        width: int,
        height: int,
        color: Color,
        corner_radius: int,
        border: Border,
    },
    /// One line of text.
    Text { text: Seq<char>, x: int, y: int, font_id: int, font_size: int, color: Color },
}

impl View for RenderCommand {
    type V = CommandModel;

    open spec fn view(&self) -> CommandModel {
        match self {
            RenderCommand::DrawRectangle { id, x, y, width, height, color, corner_radius, border } =>
                CommandModel::Rect {
                id: id@,
                x: *x as int,
                y: *y as int,
                width: *width as int,
                height: *height as int,
                color: *color,
                corner_radius: *corner_radius as int,
                border: *border,
            },
            RenderCommand::DrawText { text, x, y, font_id, font_size, color } => CommandModel::Text {
                text: text@,
                x: *x as int,
                y: *y as int,
                font_id: *font_id as int,
                font_size: *font_size as int,
                color: *color,
            },
        }
    }
}

/// The vertical text cursor after one line of height `h`, saturating at the
/// coordinate ceiling.
pub open spec fn advance_y(y: int, h: int) -> int {
    if y + h > MAX_COORD {
        MAX_COORD as int
    } else {
        y + h
    }
}

/// The commands a text run emits: one per wrapped line whose trimmed content
/// is non-empty, top to bottom, the cursor advancing by each line's measured
/// height.
pub open spec fn spec_text_commands<M: TextMeasure>(
    m: &M,
    t: TextElement,
    lines: Seq<(int, int)>,
    x: int,
    y: int,
    color: Color,
) -> Seq<CommandModel>
    decreases lines.len(),
{
    if lines.len() == 0 {
        Seq::empty()
    } else {
        let span = lines.first();
        let line = spec_trimmed(t.spec_content().subrange(span.0, span.1));
        if line.len() == 0 {
            spec_text_commands(m, t, lines.drop_first(), x, y, color)
        } else {
            let h = m.size_of(line, t.spec_style()).1;
            seq![
                CommandModel::Text {
                    text: line,
                    x: x,
                    y: y,
                    font_id: t.spec_style().font_id as int,
                    font_size: t.spec_style().font_size as int,
                    color: color,
                },
            ] + spec_text_commands(m, t, lines.drop_first(), x, advance_y(y, h), color)
        }
    }
}

/// The effective color of a text run: its own, else the inherited one.
pub open spec fn spec_text_color(t: TextElement, inherited: Color) -> Color {
    match t.spec_style().color {
        Some(c) => c,
        None => inherited,
    }
}

/// The background color a container draws: its own, else the default.
pub open spec fn spec_flex_background(f: FlexBox) -> Color {
    match f.spec_style().background_color {
        Some(c) => c,
        None => crate::style::colors::spec_color(0, 0, 0, 255),
    }
}

/// The color a container hands down to its children: its own text color,
/// else the one it inherited.
pub open spec fn spec_flex_inherited(f: FlexBox, inherited: Color) -> Color {
    match f.spec_style().color {
        Some(c) => c,
        None => inherited,
    }
}

/// The commands one node emits: a container draws its own rectangle and then
/// its children in order; a text run draws its lines.
pub open spec fn spec_render_node<M: TextMeasure>(
    m: &M,
    n: KaolinNode,
    inherited: Color,
) -> Seq<CommandModel>
    decreases node_height(n), 0int,
{
    match n.spec_element() {
        KaolinElement::Flex(f) => {
            seq![
                CommandModel::Rect {
                    id: Seq::empty(),
                    x: n.spec_x(),
                    y: n.spec_y(),
                    width: n.spec_width(),
                    height: n.spec_height(),
                    color: spec_flex_background(f),
                    corner_radius: f.spec_style().corner_radius as int,
                    border: f.spec_style().border,
                },
            ] + spec_render_nodes(m, f.spec_children(), spec_flex_inherited(f, inherited))
        },
        KaolinElement::Text(t) => spec_text_commands(
            m,
            t,
            t.spec_lines(),
            n.spec_x(),
            n.spec_y(),
            spec_text_color(t, inherited),
        ),
    }
}

/// The commands a sequence of sibling nodes emits, in order.
pub open spec fn spec_render_nodes<M: TextMeasure>(
    m: &M,
    s: Seq<KaolinNode>,
    inherited: Color,
) -> Seq<CommandModel>
    decreases crate::elements::nodes_height(s), s.len(),
{
    if s.len() == 0 {
        Seq::empty()
    } else {
        spec_render_nodes(m, s.drop_last(), inherited) + spec_render_node(m, s.last(), inherited)
    }
}

/// Emits the commands of one node into `out`.
fn render_node<M: TextMeasure>(
    n: &KaolinNode,
    m: &M,
    inherited: Color,
    out: &mut Vec<RenderCommand>,
)
    ensures
        final(out)@.map_values(|c: RenderCommand| c@) == old(out)@.map_values(
            |c: RenderCommand| c@,
        ) + spec_render_node(m, *n, inherited),
    decreases node_height(*n), 0int,
{
    proof {
        use_type_invariant(n);
    }
    match &n.element {
        KaolinElement::Flex(f) => {
            let color = match f.style.background_color {
                Some(c) => c,
                None => Color::default_background_color(),
            };
            let ghost pre = out@;
            out.push(
                RenderCommand::DrawRectangle {
                    id: String::new(),
                    x: n.x,
                    y: n.y,
                    width: n.current_width,
                    height: n.current_height,
                    color,
                    corner_radius: f.style.corner_radius,
                    border: f.style.border,
                },
            );
            proof {
                assert(out@.map_values(|c: RenderCommand| c@) =~= pre.map_values(
                    |c: RenderCommand| c@,
                ) + seq![
                    CommandModel::Rect {
                        id: Seq::empty(),
                        x: n.spec_x(),
                        y: n.spec_y(),
                        width: n.spec_width(),
                        height: n.spec_height(),
                        color: spec_flex_background(*f),
                        corner_radius: f.spec_style().corner_radius as int,
                        border: f.spec_style().border,
                    },
                ]);
            }
            let next_inherited = match f.style.color {
                Some(c) => c,
                None => inherited,
            };
            render_nodes(&f.children, m, next_inherited, out);
        },
        KaolinElement::Text(t) => {
            render_text(t, m, n.x, n.y, inherited, out);
        },
    }
}

/// Emits the commands of a group of sibling nodes into `out`, in order.
fn render_nodes<M: TextMeasure>(
    nodes: &Vec<KaolinNode>,
    m: &M,
    inherited: Color,
    out: &mut Vec<RenderCommand>,
)
    ensures
        final(out)@.map_values(|c: RenderCommand| c@) == old(out)@.map_values(
            |c: RenderCommand| c@,
        ) + spec_render_nodes(m, nodes@, inherited),
    decreases crate::elements::nodes_height(nodes@), 1int,
{
    let ghost s = nodes@;
    let n = nodes.len();
    let ghost base = out@.map_values(|c: RenderCommand| c@);
    let mut i: usize = 0;
    while i < n
        invariant
            n == s.len(),
            s == nodes@,
            0 <= i <= n,
            out@.map_values(|c: RenderCommand| c@) == base + spec_render_nodes(
                m,
                s.take(i as int),
                inherited,
            ),
        decreases n - i,
    {
        proof {
            crate::elements::lemma_nodes_height_ge(s, i as int);
            assert(s.take(i as int + 1).drop_last() =~= s.take(i as int));
            assert(s.take(i as int + 1).last() == s[i as int]);
        }
        let c = &nodes[i];
        render_node(c, m, inherited, out);
        i = i + 1;
    }
    proof {
        assert(s.take(n as int) =~= s);
        if n == 0 {
            assert(base + spec_render_nodes(m, s, inherited) =~= base);
        }
    }
}

/// Emits the line commands of a text run into `out`.
fn render_text<M: TextMeasure>(
    t: &TextElement,
    m: &M,
    x: i64,
    y: i64,
    inherited: Color,
    out: &mut Vec<RenderCommand>,
)
    requires
        -MAX_COORD <= x <= MAX_COORD,
        -MAX_COORD <= y <= MAX_COORD,
    ensures
        final(out)@.map_values(|c: RenderCommand| c@) == old(out)@.map_values(
            |c: RenderCommand| c@,
        ) + spec_text_commands(m, *t, t.spec_lines(), x as int, y as int, spec_text_color(
            *t,
            inherited,
        )),
{
    proof {
        use_type_invariant(t);
    }
    let color = match t.style.color {
        Some(c) => c,
        None => inherited,
    };
    let ghost lines_model = t.spec_lines();
    let ghost base = out@.map_values(|c: RenderCommand| c@);
    let n = t.lines.len();
    let mut cursor: i64 = y;
    let mut i: usize = 0;
    proof {
        assert(lines_model.skip(0) =~= lines_model);
    }
    while i < n
        invariant
            n == t.lines@.len(),
            lines_model == t.spec_lines(),
            t.inv(),
            color == spec_text_color(*t, inherited),
            0 <= i <= n,
            -MAX_COORD <= cursor <= MAX_COORD,
            base + spec_text_commands(m, *t, lines_model, x as int, y as int, color) == out@
                .map_values(|c: RenderCommand| c@) + spec_text_commands(
                m,
                *t,
                lines_model.skip(i as int),
                x as int,
                cursor as int,
                color,
            ),
        decreases n - i,
    {
        let (a, b) = t.lines[i];
        proof {
            assert(lines_model.skip(i as int).first() == lines_model[i as int]);
            assert(lines_model.skip(i as int).drop_first() =~= lines_model.skip(i as int + 1));
            assert(lines_model[i as int] == (a as int, b as int));
        }
        let a2 = trim_start_index(t.content.as_str(), a, b);
        let b2 = trim_end_index(t.content.as_str(), a2, b);
        let ghost span = t.content@.subrange(a as int, b as int);
        proof {
            assert(t.content@.subrange(a2 as int, b as int) =~= span.subrange(
                trim_start_len(span),
                span.len() as int,
            ));
            assert(t.content@.subrange(a2 as int, b2 as int) =~= spec_trimmed(span));
        }
        if b2 > a2 {
            let slice = t.content.as_str().substring_char(a2, b2);
            let size = m.measure(slice, &t.style);
            let text = String::from_str(slice);
            let ghost pre = out@;
            out.push(
                RenderCommand::DrawText {
                    text,
                    x,
                    y: cursor,
                    font_id: t.style.font_id,
                    font_size: t.style.font_size,
                    color,
                },
            );
            proof {
                assert(out@.map_values(|c: RenderCommand| c@) =~= pre.map_values(
                    |c: RenderCommand| c@,
                ).push(
                    CommandModel::Text {
                        text: spec_trimmed(span),
                        x: x as int,
                        y: cursor as int,
                        font_id: t.spec_style().font_id as int,
                        font_size: t.spec_style().font_size as int,
                        color: color,
                    },
                ));
            }
            cursor = if cursor + size.1 > MAX_COORD {
                MAX_COORD
            } else {
                cursor + size.1
            };
        }
        i = i + 1;
    }
    proof {
        assert(lines_model.skip(n as int) =~= Seq::<(int, int)>::empty());
        assert(out@.map_values(|c: RenderCommand| c@) + spec_text_commands(
            m,
            *t,
            lines_model.skip(n as int),
            x as int,
            cursor as int,
            color,
        ) =~= out@.map_values(|c: RenderCommand| c@));
    }
}

/// An ordered series of rendering commands, consumed front to back.
pub struct RenderCommands {
    pub(crate) commands: Vec<RenderCommand>,
}

impl View for RenderCommands {
    type V = Seq<CommandModel>;

    closed spec fn view(&self) -> Seq<CommandModel> {
        self.commands@.map_values(|c: RenderCommand| c@)
    }
}

impl RenderCommands {
    /// The commands a finished root container emits: its children in order,
    /// each pre-order. The root's own rectangle is not drawn.
    pub fn new<M: TextMeasure>(root: FlexBox, m: &M) -> (r: Self)
        requires
            root.spec_children().len() <= MAX_CHILDREN,
        ensures
            r@ == spec_render_nodes(
                m,
                root.spec_children(),
                spec_flex_inherited(root, crate::style::colors::spec_color(0, 0, 0, 255)),
            ),
    {
        let inherited = match root.style.color {
            Some(c) => c,
            None => Color::default_foreground_color(),
        };
        let mut out: Vec<RenderCommand> = Vec::new();
        proof {
            assert(out@.map_values(|c: RenderCommand| c@) =~= Seq::<CommandModel>::empty());
        }
        render_nodes(&root.children, m, inherited, &mut out);
        RenderCommands { commands: out }
    }

    /// True when no commands remain.
    pub fn is_empty(&self) -> (r: bool)
        ensures
            r == (self@.len() == 0),
    {
        self.commands.len() == 0
    }

    /// The number of commands that remain.
    pub fn len(&self) -> (r: usize)
        ensures
            r == self@.len(),
    {
        self.commands.len()
    }

    /// Removes and returns the next command, front to back.
    pub fn next(&mut self) -> (r: Option<RenderCommand>)
        ensures
            old(self)@.len() == 0 ==> r is None && final(self)@ == old(self)@,
            old(self)@.len() > 0 ==> (r matches Some(c) && c@ == old(self)@.first()
                && final(self)@ == old(self)@.drop_first()),
    {
        if self.commands.len() == 0 {
            None
        } else {
            let c = self.commands.remove(0);
            proof {
                assert(self.commands@.map_values(|k: RenderCommand| k@) =~= old(
                    self,
                )@.drop_first());
            }
            Some(c)
        }
    }
}

} // verus!
