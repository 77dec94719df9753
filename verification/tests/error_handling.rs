use kaolin::Kaolin;
use kaolin::commands::RenderCommand;
use kaolin::elements::flexbox::FlexBox;
use kaolin::measure::CharCellMeasure;
use kaolin::style::FlexStyle;
use kaolin::style::TextStyle;
use kaolin::style::layout::Direction;
use kaolin::style::layout::Layout;
use kaolin::style::sizing::BoxSizing;
use kaolin::style::sizing::Sizing;
use kaolin::style::sizing::SizingError;

fn cell() -> CharCellMeasure {
    CharCellMeasure::new(10, 20)
}

fn fixed(v: i64) -> Sizing {
    Sizing::fixed(v).unwrap()
}

fn sizing(w: Sizing, h: Sizing) -> BoxSizing {
    BoxSizing { width: w, height: h }
}

fn size(c: Option<RenderCommand>) -> (i64, i64) {
    match c.unwrap() {
        RenderCommand::DrawRectangle { width, height, .. } => (width, height),
        _ => panic!("expected a rectangle command"),
    }
}

fn text_content(c: Option<RenderCommand>) -> String {
    match c.unwrap() {
        RenderCommand::DrawText { text, .. } => text,
        _ => panic!("expected a text command"),
    }
}

#[test]
#[should_panic(expected = "Negative")]
fn negative_fixed_width() {
    let _ = sizing(Sizing::fixed(-100).unwrap(), fixed(50));
}

#[test]
#[should_panic(expected = "Negative")]
fn negative_fixed_height() {
    let _ = sizing(fixed(100), Sizing::fixed(-50).unwrap());
}

#[test]
#[should_panic(expected = "Negative")]
fn negative_growth_factor() {
    let _ = Sizing::grow_factor(-1).unwrap();
}

#[test]
#[should_panic(expected = "Negative")]
fn invalid_fit_constraints() {
    let _ = Sizing::fit_min_max(-10, 100).unwrap();
}

#[test]
fn inverted_fit_constraints() {
    assert_eq!(Sizing::fit_min_max(200, 100).unwrap_err(), SizingError::Inverted);
    assert_eq!(Sizing::grow_bounded(1, 300, 200).unwrap_err(), SizingError::Inverted);
}

#[test]
fn very_large_fixed_sizes() {
    let kaolin = Kaolin::new((800, 600));
    let m = cell();
    let root = kaolin
        .root()
        .with(FlexBox::new(FlexStyle::new().sizing(sizing(fixed(1_000_000), fixed(1_000_000)))));
    let mut commands = kaolin.draw(&m, root);

    assert_eq!(size(commands.next()), (1_000_000, 1_000_000));
}

#[test]
fn conflicting_sizing_requirements() {
    let kaolin = Kaolin::new((100, 100));
    let m = cell();
    let root = kaolin
        .root()
        .with(FlexBox::new(FlexStyle::new().sizing(sizing(fixed(200), fixed(200)))))
        .with(FlexBox::new(FlexStyle::new().sizing(sizing(fixed(200), fixed(200)))));
    let mut commands = kaolin.draw(&m, root);

    assert_eq!(size(commands.next()), (200, 200));
    assert_eq!(size(commands.next()), (200, 200));
}

#[test]
fn malformed_text_input() {
    let kaolin = Kaolin::new((800, 600));
    let m = cell();
    let root = kaolin.root().with(
        FlexBox::new(
            FlexStyle::new().sizing(sizing(Sizing::grow(), Sizing::grow())).layout(
                Layout::new().direction(Direction::TopToBottom),
            ),
        )
        .text("", TextStyle::new(), &m)
        .text("Normal text", TextStyle::new(), &m)
        .text("Text\nwith\nnewlines", TextStyle::new(), &m)
        .text(
            "Very long text that exceeds normal expectations for a single text element and might cause issues",
            TextStyle::new(),
            &m,
        ),
    );
    let mut commands = kaolin.draw(&m, root);

    commands.next();
    assert_eq!(text_content(commands.next()), "Normal text");
    assert_eq!(text_content(commands.next()), "Text");
    assert_eq!(text_content(commands.next()), "with");
    assert_eq!(text_content(commands.next()), "newlines");
    assert_eq!(
        text_content(commands.next()),
        "Very long text that exceeds normal expectations for a single text element and"
    );
    assert_eq!(text_content(commands.next()), "might cause issues");
}

#[test]
fn layout_calculation_edge_cases() {
    let kaolin = Kaolin::new((800, 600));
    let m = cell();
    let root = kaolin.root().with(
        FlexBox::new(
            FlexStyle::new().sizing(sizing(fixed(800), fixed(600))).layout(
                Layout::new().gap(i64::MAX),
            ),
        )
        .text("First", TextStyle::new(), &m)
        .text("Second", TextStyle::new(), &m),
    );
    let mut commands = kaolin.draw(&m, root);

    assert_eq!(size(commands.next()), (800, 600));
}
