use kaolin::Kaolin;
use kaolin::commands::RenderCommand;
use kaolin::elements::flexbox::FlexBox;
use kaolin::measure::CharCellMeasure;
use kaolin::style::FlexStyle;
use kaolin::style::TextStyle;
use kaolin::style::layout::Direction;
use kaolin::style::layout::Justification;
use kaolin::style::layout::Layout;
use kaolin::style::padding::Padding;
use kaolin::style::sizing::BoxSizing;
use kaolin::style::sizing::Sizing;

fn cell() -> CharCellMeasure {
    CharCellMeasure::new(10, 20)
}

fn fixed(v: i64) -> Sizing {
    Sizing::fixed(v).unwrap()
}

fn sizing(w: Sizing, h: Sizing) -> BoxSizing {
    BoxSizing { width: w, height: h }
}

fn position(c: Option<RenderCommand>) -> (i64, i64) {
    match c.unwrap() {
        RenderCommand::DrawRectangle { x, y, .. } => (x, y),
        RenderCommand::DrawText { x, y, .. } => (x, y),
    }
}

fn size(c: Option<RenderCommand>) -> (i64, i64) {
    match c.unwrap() {
        RenderCommand::DrawRectangle { width, height, .. } => (width, height),
        _ => panic!("expected a rectangle command"),
    }
}

#[test]
fn basic_horizontal_gaps() {
    let kaolin = Kaolin::new((800, 600));
    let m = cell();
    let root = kaolin.root().with(
        FlexBox::new(
            FlexStyle::new().sizing(sizing(fixed(800), fixed(600))).layout(Layout::new().gap(20)),
        )
        .text("First", TextStyle::new(), &m)
        .text("Second", TextStyle::new(), &m),
    );
    let mut commands = kaolin.draw(&m, root);

    assert_eq!(size(commands.next()), (800, 600));
    assert_eq!(position(commands.next()), (0, 0));
    assert_eq!(position(commands.next()), (70, 0));
}

#[test]
fn vertical_gaps() {
    let kaolin = Kaolin::new((800, 600));
    let m = cell();
    let root = kaolin.root().with(
        FlexBox::new(
            FlexStyle::new().sizing(sizing(fixed(800), fixed(600))).layout(
                Layout::new().direction(Direction::TopToBottom).gap(15),
            ),
        )
        .text("Top", TextStyle::new(), &m)
        .text("Middle", TextStyle::new(), &m)
        .text("Bottom", TextStyle::new(), &m),
    );
    let mut commands = kaolin.draw(&m, root);

    assert_eq!(size(commands.next()), (800, 600));
    assert_eq!(position(commands.next()), (0, 0));
    assert_eq!(position(commands.next()), (0, 35));
    assert_eq!(position(commands.next()), (0, 70));
}

#[test]
fn gaps_with_space_between_justification() {
    let kaolin = Kaolin::new((800, 600));
    let m = cell();
    let root = kaolin.root().with(
        FlexBox::new(
            FlexStyle::new().sizing(sizing(fixed(800), fixed(600))).layout(
                Layout::new().gap(10).justification(Justification::SpaceBetween),
            ),
        )
        .text("Left", TextStyle::new(), &m)
        .text("Right", TextStyle::new(), &m),
    );
    let mut commands = kaolin.draw(&m, root);

    assert_eq!(size(commands.next()), (800, 600));
    assert_eq!(position(commands.next()), (0, 0));
    assert_eq!(position(commands.next()), (750, 0));
}

#[test]
fn gaps_with_space_around_justification() {
    let kaolin = Kaolin::new((600, 400));
    let m = cell();
    let root = kaolin.root().with(
        FlexBox::new(
            FlexStyle::new().sizing(sizing(fixed(600), fixed(400))).layout(
                Layout::new().gap(20).justification(Justification::SpaceAround),
            ),
        )
        .text("A", TextStyle::new(), &m)
        .text("B", TextStyle::new(), &m),
    );
    let mut commands = kaolin.draw(&m, root);

    assert_eq!(size(commands.next()), (600, 400));
    // the around-gap 580 / 3 truncates to 193 and beats the configured 20
    assert_eq!(position(commands.next()), (193, 0));
    assert_eq!(position(commands.next()), (396, 0));
}

#[test]
fn large_gaps() {
    let kaolin = Kaolin::new((500, 300));
    let m = cell();
    let root = kaolin.root().with(
        FlexBox::new(
            FlexStyle::new().sizing(sizing(fixed(500), fixed(300))).layout(
                Layout::new().gap(200),
            ),
        )
        .text("Left", TextStyle::new(), &m)
        .text("Right", TextStyle::new(), &m),
    );
    let mut commands = kaolin.draw(&m, root);

    assert_eq!(size(commands.next()), (500, 300));
    assert_eq!(position(commands.next()), (0, 0));
    assert_eq!(position(commands.next()), (240, 0));
}

#[test]
fn gaps_with_padding() {
    let kaolin = Kaolin::new((800, 600));
    let m = cell();
    let root = kaolin.root().with(
        FlexBox::new(
            FlexStyle::new()
                .sizing(sizing(fixed(800), fixed(600)))
                .padding(Padding::all(30))
                .layout(Layout::new().gap(15)),
        )
        .text("First", TextStyle::new(), &m)
        .text("Second", TextStyle::new(), &m),
    );
    let mut commands = kaolin.draw(&m, root);

    assert_eq!(size(commands.next()), (800, 600));
    assert_eq!(position(commands.next()), (30, 30));
    assert_eq!(position(commands.next()), (95, 30));
}

#[test]
fn gaps_with_mixed_sizing() {
    let kaolin = Kaolin::new((800, 600));
    let m = cell();
    let root = kaolin.root().with(
        FlexBox::new(
            FlexStyle::new().sizing(sizing(fixed(800), fixed(600))).layout(Layout::new().gap(25)),
        )
        .with(FlexBox::new(FlexStyle::new().sizing(sizing(fixed(100), fixed(100)))))
        .with(FlexBox::new(FlexStyle::new().sizing(sizing(Sizing::grow(), Sizing::grow()))))
        .with(FlexBox::new(FlexStyle::new().sizing(sizing(fixed(150), fixed(150))))),
    );
    let mut commands = kaolin.draw(&m, root);

    assert_eq!(size(commands.next()), (800, 600));
    assert_eq!(position(commands.next()), (0, 0));
    let middle = commands.next();
    match middle {
        Some(RenderCommand::DrawRectangle { x, y, width, height, .. }) => {
            assert_eq!((width, height), (500, 600));
            assert_eq!((x, y), (125, 0));
        }
        _ => panic!("expected a rectangle command"),
    }
    let last = commands.next();
    match last {
        Some(RenderCommand::DrawRectangle { x, y, width, height, .. }) => {
            assert_eq!((width, height), (150, 150));
            assert_eq!((x, y), (650, 0));
        }
        _ => panic!("expected a rectangle command"),
    }
}

#[test]
fn zero_gaps() {
    let kaolin = Kaolin::new((800, 600));
    let m = cell();
    let root = kaolin.root().with(
        FlexBox::new(
            FlexStyle::new().sizing(sizing(fixed(800), fixed(600))).layout(Layout::new().gap(0)),
        )
        .text("Adjacent", TextStyle::new(), &m)
        .text("Elements", TextStyle::new(), &m),
    );
    let mut commands = kaolin.draw(&m, root);

    assert_eq!(size(commands.next()), (800, 600));
    assert_eq!(position(commands.next()), (0, 0));
    assert_eq!(position(commands.next()), (80, 0));
}
