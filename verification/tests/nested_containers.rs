use kaolin::Kaolin;
use kaolin::commands::RenderCommand;
use kaolin::elements::flexbox::FlexBox;
use kaolin::measure::CharCellMeasure;
use kaolin::style::FlexStyle;
use kaolin::style::TextStyle;
use kaolin::style::layout::Alignment;
use kaolin::style::layout::Direction;
use kaolin::style::layout::Justification;
use kaolin::style::layout::Layout;
use kaolin::style::padding::Padding;
use kaolin::style::sizing::BoxSizing;
use kaolin::style::sizing::Sizing;

fn cell() -> CharCellMeasure {
    CharCellMeasure::new(10, 20)
}

fn fixed(v: i64) -> Sizing {
    Sizing::fixed(v).unwrap()
}

fn sizing(w: Sizing, h: Sizing) -> BoxSizing {
    BoxSizing { width: w, height: h }
}

fn position(c: Option<RenderCommand>) -> (i64, i64) {
    match c.unwrap() {
        RenderCommand::DrawRectangle { x, y, .. } => (x, y),
        RenderCommand::DrawText { x, y, .. } => (x, y),
    }
}

fn size(c: Option<RenderCommand>) -> (i64, i64) {
    match c.unwrap() {
        RenderCommand::DrawRectangle { width, height, .. } => (width, height),
        _ => panic!("expected a rectangle command"),
    }
}

fn rect_at(c: Option<RenderCommand>, x: i64, y: i64, w: i64, h: i64) {
    match c.unwrap() {
        RenderCommand::DrawRectangle { x: cx, y: cy, width, height, .. } => {
            assert_eq!((cx, cy, width, height), (x, y, w, h));
        }
        _ => panic!("expected a rectangle command"),
    }
}

fn text_at(c: Option<RenderCommand>, content: &str, x: i64, y: i64) {
    match c.unwrap() {
        RenderCommand::DrawText { text, x: cx, y: cy, .. } => {
            assert_eq!(text, content);
            assert_eq!((cx, cy), (x, y));
        }
        _ => panic!("expected a text command"),
    }
}

#[test]
fn basic_nested_containers() {
    let kaolin = Kaolin::new((800, 600));
    let m = cell();
    let root = kaolin.root().with(
        FlexBox::new(FlexStyle::new().sizing(sizing(fixed(800), fixed(600)))).with(
            FlexBox::new(FlexStyle::new().sizing(sizing(fixed(400), fixed(300))))
                .text("Nested Text", TextStyle::new(), &m),
        ),
    );
    let mut commands = kaolin.draw(&m, root);

    rect_at(commands.next(), 0, 0, 800, 600);
    rect_at(commands.next(), 0, 0, 400, 300);
    text_at(commands.next(), "Nested Text", 0, 0);
}

#[test]
fn multi_level_nesting_different_directions() {
    let kaolin = Kaolin::new((800, 600));
    let m = cell();
    let root = kaolin.root().with(
        FlexBox::new(
            FlexStyle::new().sizing(sizing(fixed(800), fixed(600))).layout(
                Layout::new().direction(Direction::LeftToRight),
            ),
        )
        .with(
            FlexBox::new(
                FlexStyle::new().sizing(sizing(fixed(400), fixed(600))).layout(
                    Layout::new().direction(Direction::TopToBottom),
                ),
            )
            .with(
                FlexBox::new(FlexStyle::new().sizing(sizing(fixed(400), fixed(200))))
                    .text("Top", TextStyle::new(), &m),
            )
            .with(
                FlexBox::new(FlexStyle::new().sizing(sizing(fixed(400), fixed(200))))
                    .text("Bottom", TextStyle::new(), &m),
            ),
        )
        .with(
            FlexBox::new(FlexStyle::new().sizing(sizing(fixed(400), fixed(600))))
                .text("Right Side", TextStyle::new(), &m),
        ),
    );
    let mut commands = kaolin.draw(&m, root);

    assert_eq!(size(commands.next()), (800, 600));
    assert_eq!(size(commands.next()), (400, 600));
    rect_at(commands.next(), 0, 0, 400, 200);
    text_at(commands.next(), "Top", 0, 0);
    rect_at(commands.next(), 0, 200, 400, 200);
    text_at(commands.next(), "Bottom", 0, 200);
    rect_at(commands.next(), 400, 0, 400, 600);
    text_at(commands.next(), "Right Side", 400, 0);
}

#[test]
fn nested_containers_with_growth() {
    let kaolin = Kaolin::new((800, 600));
    let m = cell();
    let root = kaolin
        .root()
        .with(
            FlexBox::new(FlexStyle::new().sizing(sizing(Sizing::grow(), Sizing::grow()))).with(
                FlexBox::new(FlexStyle::new().sizing(sizing(Sizing::grow(), Sizing::fit())))
                    .text("Inner Growth", TextStyle::new(), &m),
            ),
        )
        .with(
            FlexBox::new(FlexStyle::new().sizing(sizing(Sizing::grow(), Sizing::grow())))
                .text("Sibling", TextStyle::new(), &m),
        );
    let mut commands = kaolin.draw(&m, root);

    assert_eq!(size(commands.next()), (400, 600));
    assert_eq!(size(commands.next()), (400, 20));
    text_at(commands.next(), "Inner Growth", 0, 0);
    rect_at(commands.next(), 400, 0, 400, 600);
    text_at(commands.next(), "Sibling", 400, 0);
}

#[test]
fn nested_containers_different_alignments() {
    let kaolin = Kaolin::new((600, 400));
    let m = cell();
    let root = kaolin.root().with(
        FlexBox::new(
            FlexStyle::new().sizing(sizing(fixed(600), fixed(400))).layout(
                Layout::new().alignment(Alignment::Center).justification(Justification::Center),
            ),
        )
        .with(
            FlexBox::new(
                FlexStyle::new().sizing(sizing(fixed(200), fixed(100))).layout(
                    Layout::new().alignment(Alignment::End).justification(Justification::End),
                ),
            )
            .text("Nested", TextStyle::new(), &m),
        ),
    );
    let mut commands = kaolin.draw(&m, root);

    assert_eq!(size(commands.next()), (600, 400));
    rect_at(commands.next(), 200, 150, 200, 100);
    assert_eq!(position(commands.next()), (340, 230));
}

#[test]
fn nested_containers_with_padding() {
    let kaolin = Kaolin::new((800, 600));
    let m = cell();
    let root = kaolin.root().with(
        FlexBox::new(
            FlexStyle::new().sizing(sizing(fixed(800), fixed(600))).padding(Padding::all(50)),
        )
        .with(
            FlexBox::new(
                FlexStyle::new().sizing(sizing(fixed(300), fixed(200))).padding(
                    Padding::all(25),
                ),
            )
            .text("Padded Text", TextStyle::new(), &m),
        ),
    );
    let mut commands = kaolin.draw(&m, root);

    assert_eq!(size(commands.next()), (800, 600));
    rect_at(commands.next(), 50, 50, 300, 200);
    assert_eq!(position(commands.next()), (75, 75));
}

#[test]
fn deeply_nested_containers() {
    let kaolin = Kaolin::new((400, 300));
    let m = cell();
    let root = kaolin.root().with(
        FlexBox::new(FlexStyle::new().sizing(sizing(fixed(400), fixed(300)))).with(
            FlexBox::new(FlexStyle::new().sizing(sizing(fixed(300), fixed(200)))).with(
                FlexBox::new(FlexStyle::new().sizing(sizing(fixed(200), fixed(100)))).with(
                    FlexBox::new(FlexStyle::new().sizing(sizing(fixed(100), fixed(50))))
                        .text("Deep", TextStyle::new(), &m),
                ),
            ),
        ),
    );
    let mut commands = kaolin.draw(&m, root);

    assert_eq!(size(commands.next()), (400, 300));
    assert_eq!(size(commands.next()), (300, 200));
    assert_eq!(size(commands.next()), (200, 100));
    assert_eq!(size(commands.next()), (100, 50));
    assert_eq!(position(commands.next()), (0, 0));
}

#[test]
fn nested_fit_and_fixed_sizing() {
    let kaolin = Kaolin::new((800, 600));
    let m = cell();
    let root = kaolin.root().with(
        FlexBox::new(FlexStyle::new().sizing(sizing(fixed(800), fixed(600)))).with(
            FlexBox::new(FlexStyle::new()).text("Auto Size Content", TextStyle::new(), &m),
        ),
    );
    let mut commands = kaolin.draw(&m, root);

    assert_eq!(size(commands.next()), (800, 600));
    assert_eq!(size(commands.next()), (170, 20));
    assert_eq!(position(commands.next()), (0, 0));
}
