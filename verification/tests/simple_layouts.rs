use kaolin::Kaolin;
use kaolin::commands::RenderCommand;
use kaolin::elements::flexbox::FlexBox;
use kaolin::measure::CharCellMeasure;
use kaolin::style::FlexStyle;
use kaolin::style::TextStyle;
use kaolin::style::colors::Color;
use kaolin::style::colors::Colors;
use kaolin::style::layout::Alignment;
use kaolin::style::layout::Direction;
use kaolin::style::layout::Justification;
use kaolin::style::layout::Layout;
use kaolin::style::sizing::BoxSizing;
use kaolin::style::sizing::Sizing;

fn cell() -> CharCellMeasure {
    CharCellMeasure::new(10, 20)
}

fn fixed(v: i64) -> Sizing {
    Sizing::fixed(v).unwrap()
}

fn sizing(w: Sizing, h: Sizing) -> BoxSizing {
    BoxSizing { width: w, height: h }
}

fn rect_parts(c: Option<RenderCommand>) -> (i64, i64, i64, i64, Color) {
    match c.unwrap() {
        RenderCommand::DrawRectangle { x, y, width, height, color, .. } => {
            (x, y, width, height, color)
        }
        _ => panic!("expected a rectangle command"),
    }
}

fn text_parts(c: Option<RenderCommand>) -> (String, i64, i64, u32, i64, Color) {
    match c.unwrap() {
        RenderCommand::DrawText { text, x, y, font_id, font_size, color } => {
            (text, x, y, font_id, font_size, color)
        }
        _ => panic!("expected a text command"),
    }
}

#[test]
fn simple_layout() {
    let kaolin = Kaolin::new((800, 600));
    let m = cell();
    let root = kaolin.root().with(
        FlexBox::new(
            FlexStyle::new().sizing(sizing(fixed(800), fixed(600))).layout(
                Layout::new()
                    .direction(Direction::LeftToRight)
                    .alignment(Alignment::Center)
                    .justification(Justification::Center)
                    .gap(10),
            ),
        )
        .text("Hello, Kaolin!", TextStyle::new(), &m),
    );
    let mut commands = kaolin.draw(&m, root);

    let (x, y, w, h, color) = rect_parts(commands.next());
    assert_eq!((x, y, w, h), (0, 0, 800, 600));
    assert_eq!(color, Color::default());
    let (text, x, y, font_id, font_size, color) = text_parts(commands.next());
    assert_eq!(text, "Hello, Kaolin!");
    assert_eq!((x, y), ((800 - 140) / 2, (600 - 20) / 2));
    assert_eq!((font_id, font_size), (0, 16));
    assert_eq!(color, Color::default());
    assert!(commands.next().is_none());
}

#[test]
fn double_growth() {
    let kaolin = Kaolin::new((800, 600));
    let m = cell();
    let root = kaolin
        .root()
        .with(FlexBox::new(FlexStyle::new().sizing(sizing(Sizing::grow(), Sizing::grow()))))
        .with(FlexBox::new(
            FlexStyle::new().sizing(sizing(Sizing::grow_factor(3).unwrap(), fixed(200))),
        ));
    let mut commands = kaolin.draw(&m, root);

    let (x, y, w, h, _) = rect_parts(commands.next());
    assert_eq!((x, y, w, h), (0, 0, 200, 600));
    let (x, y, w, h, _) = rect_parts(commands.next());
    assert_eq!((x, y, w, h), (200, 0, 600, 200));
    assert!(commands.next().is_none());
}

#[test]
fn fit_sizing() {
    let kaolin = Kaolin::new((800, 600));
    let m = cell();
    let root = kaolin
        .root()
        .with(FlexBox::new(FlexStyle::new()).text("Hello, Kaolin!", TextStyle::new(), &m));
    let mut commands = kaolin.draw(&m, root);

    let (x, y, w, h, _) = rect_parts(commands.next());
    assert_eq!((x, y, w, h), (0, 0, 140, 20));
    let (text, x, y, _, _, color) = text_parts(commands.next());
    assert_eq!(text, "Hello, Kaolin!");
    assert_eq!((x, y), (0, 0));
    assert_eq!(color, Color::default());
    assert!(commands.next().is_none());
}

#[test]
fn inherited_color() {
    let kaolin = Kaolin::new((800, 600));
    let m = cell();
    let root = kaolin.root().with(
        FlexBox::new(FlexStyle::new().color(Color::from(Colors::Red)))
            .text("Hello, Kaolin!", TextStyle::new(), &m),
    );
    let mut commands = kaolin.draw(&m, root);

    let (x, y, w, h, _) = rect_parts(commands.next());
    assert_eq!((x, y, w, h), (0, 0, 140, 20));
    let (text, _, _, _, _, color) = text_parts(commands.next());
    assert_eq!(text, "Hello, Kaolin!");
    assert_eq!(color, Color::from(Colors::Red));
    assert!(commands.next().is_none());
}
