use kaolin::Kaolin;
use kaolin::commands::RenderCommand;
use kaolin::elements::flexbox::FlexBox;
use kaolin::measure::CharCellMeasure;
use kaolin::style::FlexStyle;
use kaolin::style::TextStyle;
use kaolin::style::border::Border;
use kaolin::style::colors::Color;
use kaolin::style::colors::Colors;
use kaolin::style::layout::Direction;
use kaolin::style::layout::Layout;
use kaolin::style::padding::Padding;
use kaolin::style::sizing::BoxSizing;
use kaolin::style::sizing::Sizing;

fn cell() -> CharCellMeasure {
    CharCellMeasure::new(10, 20)
}

fn fixed(v: i64) -> Sizing {
    Sizing::fixed(v).unwrap()
}

fn sizing(w: Sizing, h: Sizing) -> BoxSizing {
    BoxSizing { width: w, height: h }
}

fn position(c: Option<RenderCommand>) -> (i64, i64) {
    match c.unwrap() {
        RenderCommand::DrawRectangle { x, y, .. } => (x, y),
        RenderCommand::DrawText { x, y, .. } => (x, y),
    }
}

fn size(c: Option<RenderCommand>) -> (i64, i64) {
    match c.unwrap() {
        RenderCommand::DrawRectangle { width, height, .. } => (width, height),
        _ => panic!("expected a rectangle command"),
    }
}

fn color_of(c: Option<RenderCommand>) -> Color {
    match c.unwrap() {
        RenderCommand::DrawRectangle { color, .. } => color,
        RenderCommand::DrawText { color, .. } => color,
    }
}

#[test]
fn basic_border_rendering() {
    let kaolin = Kaolin::new((800, 600));
    let m = cell();
    let root = kaolin.root().with(FlexBox::new(
        FlexStyle::new()
            .sizing(sizing(fixed(200), fixed(100)))
            .border(Border::new().width(5).color(Color::from(Colors::Red))),
    ));
    let mut commands = kaolin.draw(&m, root);

    match commands.next().unwrap() {
        RenderCommand::DrawRectangle { border, .. } => {
            assert_eq!(border.width, 5);
            assert_eq!(border.color, Color::from(Colors::Red));
        }
        _ => panic!("expected a rectangle command"),
    }
}

#[test]
fn corner_radius_rendering() {
    let kaolin = Kaolin::new((800, 600));
    let m = cell();
    let root = kaolin.root().with(FlexBox::new(
        FlexStyle::new().sizing(sizing(fixed(200), fixed(100))).corner_radius(15),
    ));
    let mut commands = kaolin.draw(&m, root);

    match commands.next().unwrap() {
        RenderCommand::DrawRectangle { corner_radius, .. } => {
            assert_eq!(corner_radius, 15);
        }
        _ => panic!("expected a rectangle command"),
    }
}

#[test]
fn background_color_rendering() {
    let kaolin = Kaolin::new((800, 600));
    let m = cell();
    let root = kaolin.root().with(FlexBox::new(
        FlexStyle::new()
            .sizing(sizing(fixed(200), fixed(100)))
            .background_color(Color::from(Colors::Red)),
    ));
    let mut commands = kaolin.draw(&m, root);

    assert_eq!(color_of(commands.next()), Color::from(Colors::Red));
}

#[test]
fn combined_styling_properties() {
    let kaolin = Kaolin::new((800, 600));
    let m = cell();
    let root = kaolin.root().with(
        FlexBox::new(
            FlexStyle::new()
                .sizing(sizing(fixed(300), fixed(200)))
                .background_color(Color::from(Colors::Red))
                .border(Border::new().width(3))
                .corner_radius(10),
        )
        .text("Styled", TextStyle::new(), &m),
    );
    let mut commands = kaolin.draw(&m, root);

    match commands.next().unwrap() {
        RenderCommand::DrawRectangle { color, corner_radius, border, width, height, .. } => {
            assert_eq!(color, Color::from(Colors::Red));
            assert_eq!(corner_radius, 10);
            assert_eq!(width, 300);
            assert_eq!(height, 200);
            assert_eq!(border.width, 3);
            assert_eq!(border.color, Color::default());
        }
        _ => panic!("expected a rectangle command"),
    }
}

#[test]
fn padding_with_styling() {
    let kaolin = Kaolin::new((800, 600));
    let m = cell();
    let root = kaolin.root().with(
        FlexBox::new(
            FlexStyle::new()
                .sizing(sizing(fixed(200), fixed(100)))
                .padding(Padding::all(20))
                .background_color(Color::from(Colors::Red)),
        )
        .text("Padded", TextStyle::new(), &m),
    );
    let mut commands = kaolin.draw(&m, root);

    assert_eq!(size(commands.next()), (200, 100));
    assert_eq!(position(commands.next()), (20, 20));
}

#[test]
fn asymmetric_padding() {
    let kaolin = Kaolin::new((800, 600));
    let m = cell();
    let root = kaolin.root().with(
        FlexBox::new(
            FlexStyle::new().sizing(sizing(fixed(400), fixed(300))).padding(
                Padding::new(10, 20, 15, 25),
            ),
        )
        .text("Asymmetric", TextStyle::new(), &m),
    );
    let mut commands = kaolin.draw(&m, root);

    assert_eq!(size(commands.next()), (400, 300));
    assert_eq!(position(commands.next()), (10, 15));
}

#[test]
fn padding_with_vertical_layout() {
    let kaolin = Kaolin::new((800, 600));
    let m = cell();
    let root = kaolin.root().with(
        FlexBox::new(
            FlexStyle::new()
                .sizing(sizing(fixed(200), fixed(300)))
                .padding(Padding::all(30))
                .layout(Layout::new().direction(Direction::TopToBottom)),
        )
        .text("First", TextStyle::new(), &m)
        .text("Second", TextStyle::new(), &m),
    );
    let mut commands = kaolin.draw(&m, root);

    assert_eq!(size(commands.next()), (200, 300));
    assert_eq!(position(commands.next()), (30, 30));
    assert_eq!(position(commands.next()), (30, 50));
}

#[test]
fn styling_with_color_inheritance() {
    let kaolin = Kaolin::new((800, 600));
    let m = cell();
    let root = kaolin.root().with(
        FlexBox::new(
            FlexStyle::new()
                .sizing(sizing(fixed(300), fixed(200)))
                .color(Color::from(Colors::Red))
                .background_color(Color::from(Colors::Black))
                .border(Border::new().width(2).color(Color::from(Colors::Red))),
        )
        .text("Styled Text", TextStyle::new(), &m),
    );
    let mut commands = kaolin.draw(&m, root);

    commands.next();
    assert_eq!(color_of(commands.next()), Color::from(Colors::Red));
}
