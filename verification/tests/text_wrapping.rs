use kaolin::Kaolin;
use kaolin::commands::RenderCommand;
use kaolin::elements::flexbox::FlexBox;
use kaolin::measure::CharCellMeasure;
use kaolin::style::FlexStyle;
use kaolin::style::TextStyle;
use kaolin::style::layout::Alignment;
use kaolin::style::layout::Direction;
use kaolin::style::layout::Layout;
use kaolin::style::padding::Padding;
use kaolin::style::sizing::BoxSizing;
use kaolin::style::sizing::Sizing;

fn cell() -> CharCellMeasure {
    CharCellMeasure::new(10, 20)
}

fn fixed(v: i64) -> Sizing {
    Sizing::fixed(v).unwrap()
}

fn sizing(w: Sizing, h: Sizing) -> BoxSizing {
    BoxSizing { width: w, height: h }
}

fn position(c: Option<RenderCommand>) -> (i64, i64) {
    match c.unwrap() {
        RenderCommand::DrawRectangle { x, y, .. } => (x, y),
        RenderCommand::DrawText { x, y, .. } => (x, y),
    }
}

fn size(c: Option<RenderCommand>) -> (i64, i64) {
    match c.unwrap() {
        RenderCommand::DrawRectangle { width, height, .. } => (width, height),
        _ => panic!("expected a rectangle command"),
    }
}

fn line(c: Option<RenderCommand>) -> (String, i64, i64) {
    match c.unwrap() {
        RenderCommand::DrawText { text, x, y, .. } => (text, x, y),
        _ => panic!("expected a text command"),
    }
}

#[test]
fn basic_text_wrapping() {
    let kaolin = Kaolin::new((800, 600));
    let m = cell();
    let root = kaolin.root().with(
        FlexBox::new(FlexStyle::new().sizing(sizing(fixed(100), Sizing::fit())))
            .text("This is a long text that should wrap", TextStyle::new(), &m),
    );
    let mut commands = kaolin.draw(&m, root);

    let first = commands.next();
    match first {
        Some(RenderCommand::DrawRectangle { x, y, width, height, .. }) => {
            assert_eq!((x, y), (0, 0));
            assert_eq!((width, height), (100, 100));
        }
        _ => panic!("expected a rectangle command"),
    }
    assert_eq!(line(commands.next()), ("This is a".to_string(), 0, 0));
    assert_eq!(line(commands.next()), ("long text".to_string(), 0, 20));
    assert_eq!(line(commands.next()), ("that".to_string(), 0, 40));
    assert_eq!(line(commands.next()), ("should".to_string(), 0, 60));
    assert_eq!(line(commands.next()), ("wrap".to_string(), 0, 80));
    assert!(commands.next().is_none());
}

#[test]
fn narrow_container_text_wrapping() {
    let kaolin = Kaolin::new((800, 600));
    let m = cell();
    let root = kaolin.root().with(
        FlexBox::new(FlexStyle::new().sizing(sizing(fixed(25), Sizing::fit())))
            .text("Hello World", TextStyle::new(), &m),
    );
    let mut commands = kaolin.draw(&m, root);

    assert_eq!(size(commands.next()), (25, 40));
}

#[test]
fn text_wrapping_with_padding() {
    let kaolin = Kaolin::new((800, 600));
    let m = cell();
    let root = kaolin.root().with(
        FlexBox::new(
            FlexStyle::new().sizing(sizing(fixed(120), Sizing::fit())).padding(Padding::all(10)),
        )
        .text("Text with padding wrapping", TextStyle::new(), &m),
    );
    let mut commands = kaolin.draw(&m, root);

    assert_eq!(size(commands.next()), (120, 80));
    assert_eq!(position(commands.next()), (10, 10));
}

#[test]
fn text_wrapping_vertical_layout() {
    let kaolin = Kaolin::new((800, 600));
    let m = cell();
    let root = kaolin.root().with(
        FlexBox::new(
            FlexStyle::new().sizing(sizing(fixed(800), fixed(600))).layout(
                Layout::new().direction(Direction::TopToBottom),
            ),
        )
        .with(
            FlexBox::new(FlexStyle::new().sizing(sizing(fixed(90), Sizing::fit())))
                .text("Vertical layout wrapping text", TextStyle::new(), &m),
        ),
    );
    let mut commands = kaolin.draw(&m, root);

    assert_eq!(size(commands.next()), (800, 600));
    assert_eq!(size(commands.next()), (90, 80));
}

#[test]
fn multiple_texts_wrapping() {
    let kaolin = Kaolin::new((800, 600));
    let m = cell();
    let root = kaolin.root().with(
        FlexBox::new(
            FlexStyle::new().sizing(sizing(fixed(800), fixed(600))).layout(
                Layout::new().direction(Direction::TopToBottom),
            ),
        )
        .with(
            FlexBox::new(FlexStyle::new().sizing(sizing(fixed(100), Sizing::fit())))
                .text("First text wraps", TextStyle::new(), &m),
        )
        .with(
            FlexBox::new(FlexStyle::new().sizing(sizing(fixed(100), Sizing::fit())))
                .text("Second text also wraps", TextStyle::new(), &m),
        ),
    );
    let mut commands = kaolin.draw(&m, root);

    assert_eq!(size(commands.next()), (800, 600));
    assert_eq!(size(commands.next()).1, 40);
    commands.next();
    commands.next();
    assert_eq!(size(commands.next()).1, 60);
}

#[test]
fn no_wrapping_needed() {
    let kaolin = Kaolin::new((800, 600));
    let m = cell();
    let root = kaolin.root().with(
        FlexBox::new(FlexStyle::new().sizing(sizing(fixed(500), Sizing::fit())))
            .text("Short text", TextStyle::new(), &m),
    );
    let mut commands = kaolin.draw(&m, root);

    assert_eq!(size(commands.next()), (500, 20));
    assert_eq!(position(commands.next()), (0, 0));
}

#[test]
fn text_wrapping_with_alignment() {
    let kaolin = Kaolin::new((800, 600));
    let m = cell();
    let root = kaolin.root().with(
        FlexBox::new(
            FlexStyle::new().sizing(sizing(fixed(100), Sizing::fit())).layout(
                Layout::new().alignment(Alignment::Center),
            ),
        )
        .text("Center aligned wrapping text", TextStyle::new(), &m),
    );
    let mut commands = kaolin.draw(&m, root);

    assert_eq!(size(commands.next()), (100, 80));
}

#[test]
fn consecutive_newlines_keep_words() {
    let kaolin = Kaolin::new((800, 600));
    let m = cell();
    let root = kaolin.root().with(
        FlexBox::new(FlexStyle::new().sizing(sizing(fixed(100), Sizing::fit())))
            .text("a\n\nb", TextStyle::new(), &m),
    );
    let mut commands = kaolin.draw(&m, root);

    // the blank line keeps its place in the height; both words survive
    assert_eq!(size(commands.next()), (100, 60));
    assert_eq!(line(commands.next()), ("a".to_string(), 0, 0));
    assert_eq!(line(commands.next()), ("b".to_string(), 0, 20));
    assert!(commands.next().is_none());
}

#[test]
fn leading_newlines_keep_words() {
    let kaolin = Kaolin::new((800, 600));
    let m = cell();
    let root = kaolin.root().with(
        FlexBox::new(FlexStyle::new().sizing(sizing(fixed(100), Sizing::fit())))
            .text("\n\nab", TextStyle::new(), &m),
    );
    let mut commands = kaolin.draw(&m, root);

    assert_eq!(size(commands.next()), (100, 60));
    assert_eq!(line(commands.next()), ("ab".to_string(), 0, 0));
    assert!(commands.next().is_none());
}

#[test]
fn empty_text_wrapping() {
    let kaolin = Kaolin::new((800, 600));
    let m = cell();
    let root = kaolin.root().with(
        FlexBox::new(FlexStyle::new().sizing(sizing(fixed(100), Sizing::fit())))
            .text("", TextStyle::new(), &m),
    );
    let mut commands = kaolin.draw(&m, root);

    assert_eq!(size(commands.next()), (100, 0));
    assert!(commands.next().is_none());
}
