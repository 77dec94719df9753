use kaolin::Kaolin;
use kaolin::commands::RenderCommand;
use kaolin::elements::flexbox::FlexBox;
use kaolin::measure::CharCellMeasure;
use kaolin::style::FlexStyle;
use kaolin::style::TextStyle;
use kaolin::style::layout::Alignment;
use kaolin::style::layout::Direction;
use kaolin::style::layout::Justification;
use kaolin::style::layout::Layout;
use kaolin::style::padding::Padding;
use kaolin::style::sizing::BoxSizing;
use kaolin::style::sizing::Sizing;

fn cell() -> CharCellMeasure {
    CharCellMeasure::new(10, 20)
}

fn fixed(v: i64) -> Sizing {
    Sizing::fixed(v).unwrap()
}

fn sizing(w: Sizing, h: Sizing) -> BoxSizing {
    BoxSizing { width: w, height: h }
}

fn position(c: Option<RenderCommand>) -> (i64, i64) {
    match c.unwrap() {
        RenderCommand::DrawRectangle { x, y, .. } => (x, y),
        RenderCommand::DrawText { x, y, .. } => (x, y),
    }
}

fn size(c: Option<RenderCommand>) -> (i64, i64) {
    match c.unwrap() {
        RenderCommand::DrawRectangle { width, height, .. } => (width, height),
        _ => panic!("expected a rectangle command"),
    }
}

#[test]
fn horizontal_center_alignment_space_between() {
    let kaolin = Kaolin::new((800, 600));
    let m = cell();
    let root = kaolin.root().with(
        FlexBox::new(
            FlexStyle::new().sizing(sizing(fixed(800), fixed(600))).layout(
                Layout::new()
                    .alignment(Alignment::Center)
                    .justification(Justification::SpaceBetween),
            ),
        )
        .text("Left", TextStyle::new(), &m)
        .text("Right", TextStyle::new(), &m),
    );
    let mut commands = kaolin.draw(&m, root);

    assert_eq!(size(commands.next()), (800, 600));
    assert_eq!(position(commands.next()), (0, 290));
    assert_eq!(position(commands.next()), (750, 290));
}

#[test]
fn vertical_start_alignment_start_justification() {
    let kaolin = Kaolin::new((800, 600));
    let m = cell();
    let root = kaolin.root().with(
        FlexBox::new(
            FlexStyle::new().sizing(sizing(fixed(800), fixed(600))).layout(
                Layout::new()
                    .direction(Direction::TopToBottom)
                    .alignment(Alignment::Start)
                    .justification(Justification::Start),
            ),
        )
        .text("Top Left", TextStyle::new(), &m)
        .text("Below", TextStyle::new(), &m),
    );
    let mut commands = kaolin.draw(&m, root);

    assert_eq!(size(commands.next()), (800, 600));
    assert_eq!(position(commands.next()), (0, 0));
    assert_eq!(position(commands.next()), (0, 20));
}

#[test]
fn vertical_end_alignment_end_justification() {
    let kaolin = Kaolin::new((800, 600));
    let m = cell();
    let root = kaolin.root().with(
        FlexBox::new(
            FlexStyle::new().sizing(sizing(fixed(800), fixed(600))).layout(
                Layout::new()
                    .direction(Direction::TopToBottom)
                    .alignment(Alignment::End)
                    .justification(Justification::End),
            ),
        )
        .text("Above", TextStyle::new(), &m)
        .text("Bottom Right", TextStyle::new(), &m),
    );
    let mut commands = kaolin.draw(&m, root);

    assert_eq!(size(commands.next()), (800, 600));
    assert_eq!(position(commands.next()), (750, 560));
    assert_eq!(position(commands.next()), (680, 580));
}

#[test]
fn horizontal_center_alignment_center_justification() {
    let kaolin = Kaolin::new((800, 600));
    let m = cell();
    let root = kaolin.root().with(
        FlexBox::new(
            FlexStyle::new().sizing(sizing(fixed(800), fixed(600))).layout(
                Layout::new().alignment(Alignment::Center).justification(Justification::Center),
            ),
        )
        .text("Center", TextStyle::new(), &m)
        .text("Middle", TextStyle::new(), &m),
    );
    let mut commands = kaolin.draw(&m, root);

    assert_eq!(size(commands.next()), (800, 600));
    assert_eq!(position(commands.next()), (340, 290));
    assert_eq!(position(commands.next()), (400, 290));
}

#[test]
fn horizontal_space_around_justification() {
    let kaolin = Kaolin::new((900, 600));
    let m = cell();
    let root = kaolin.root().with(
        FlexBox::new(
            FlexStyle::new().sizing(sizing(fixed(900), fixed(600))).layout(
                Layout::new().alignment(Alignment::Center).justification(
                    Justification::SpaceAround,
                ),
            ),
        )
        .text("A", TextStyle::new(), &m)
        .text("B", TextStyle::new(), &m)
        .text("C", TextStyle::new(), &m),
    );
    let mut commands = kaolin.draw(&m, root);

    assert_eq!(size(commands.next()), (900, 600));
    // 870 units of free space over 4 around-gaps: 870 / 4 truncates to 217
    assert_eq!(position(commands.next()), (217, 290));
    assert_eq!(position(commands.next()), (444, 290));
    assert_eq!(position(commands.next()), (671, 290));
}

#[test]
fn alignment_with_padding() {
    let kaolin = Kaolin::new((800, 600));
    let m = cell();
    let root = kaolin.root().with(
        FlexBox::new(
            FlexStyle::new()
                .sizing(sizing(fixed(800), fixed(600)))
                .padding(Padding::all(50))
                .layout(
                    Layout::new().alignment(Alignment::Center).justification(
                        Justification::Center,
                    ),
                ),
        )
        .text("Padded", TextStyle::new(), &m),
    );
    let mut commands = kaolin.draw(&m, root);

    assert_eq!(size(commands.next()), (800, 600));
    assert_eq!(position(commands.next()), (370, 290));
}
