use kaolin::Kaolin;
use kaolin::commands::RenderCommand;
use kaolin::elements::flexbox::FlexBox;
use kaolin::measure::CharCellMeasure;
use kaolin::style::FlexStyle;
use kaolin::style::TextStyle;
use kaolin::style::colors::Color;
use kaolin::style::colors::Colors;

fn cell() -> CharCellMeasure {
    CharCellMeasure::new(10, 20)
}

fn color_of(c: Option<RenderCommand>) -> Color {
    match c.unwrap() {
        RenderCommand::DrawRectangle { color, .. } => color,
        RenderCommand::DrawText { color, .. } => color,
    }
}

fn red() -> Color {
    Color::from(Colors::Red)
}

fn black() -> Color {
    Color::from(Colors::Black)
}

#[test]
fn basic_color_inheritance() {
    let kaolin = Kaolin::new((800, 600));
    let m = cell();
    let root = kaolin.root().with(
        FlexBox::new(FlexStyle::new().color(red())).text("Hello, Kaolin!", TextStyle::new(), &m),
    );
    let mut commands = kaolin.draw(&m, root);

    commands.next();
    assert_eq!(color_of(commands.next()), red());
}

#[test]
fn multi_level_color_inheritance() {
    let kaolin = Kaolin::new((800, 600));
    let m = cell();
    let root = kaolin.root().with(
        FlexBox::new(FlexStyle::new().color(red())).with(
            FlexBox::new(FlexStyle::new()).with(
                FlexBox::new(FlexStyle::new()).text("Deeply Nested", TextStyle::new(), &m),
            ),
        ),
    );
    let mut commands = kaolin.draw(&m, root);

    commands.next();
    commands.next();
    commands.next();
    assert_eq!(color_of(commands.next()), red());
}

#[test]
fn color_inheritance_override() {
    let kaolin = Kaolin::new((800, 600));
    let m = cell();
    let root = kaolin.root().with(
        FlexBox::new(FlexStyle::new().color(red()))
            .text("Red Text", TextStyle::new(), &m)
            .with(
                FlexBox::new(FlexStyle::new().color(black()))
                    .text("Black Text", TextStyle::new(), &m),
            ),
    );
    let mut commands = kaolin.draw(&m, root);

    commands.next();
    assert_eq!(color_of(commands.next()), red());
    commands.next();
    assert_eq!(color_of(commands.next()), black());
}

#[test]
fn explicit_text_color_override() {
    let kaolin = Kaolin::new((800, 600));
    let m = cell();
    let root = kaolin.root().with(
        FlexBox::new(FlexStyle::new().color(red()))
            .text("Inherited Red", TextStyle::new(), &m)
            .text("Explicit Black", TextStyle::new().color(black()), &m),
    );
    let mut commands = kaolin.draw(&m, root);

    commands.next();
    assert_eq!(color_of(commands.next()), red());
    assert_eq!(color_of(commands.next()), black());
}

#[test]
fn color_inheritance_multiple_siblings() {
    let kaolin = Kaolin::new((800, 600));
    let m = cell();
    let root = kaolin.root().with(
        FlexBox::new(FlexStyle::new().color(red()))
            .text("First", TextStyle::new(), &m)
            .text("Second", TextStyle::new(), &m)
            .text("Third", TextStyle::new(), &m),
    );
    let mut commands = kaolin.draw(&m, root);

    commands.next();
    assert_eq!(color_of(commands.next()), red());
    assert_eq!(color_of(commands.next()), red());
    assert_eq!(color_of(commands.next()), red());
}

#[test]
fn default_color_behavior() {
    let kaolin = Kaolin::new((800, 600));
    let m = cell();
    let root = kaolin
        .root()
        .with(FlexBox::new(FlexStyle::new()).text("Default Color", TextStyle::new(), &m));
    let mut commands = kaolin.draw(&m, root);

    commands.next();
    assert_eq!(color_of(commands.next()), Color::default());
}

#[test]
fn complex_color_inheritance_scenario() {
    let kaolin = Kaolin::new((800, 600));
    let m = cell();
    let root = kaolin.root().with(
        FlexBox::new(FlexStyle::new().color(red()))
            .text("Red Header", TextStyle::new(), &m)
            .with(
                FlexBox::new(FlexStyle::new())
                    .text("Red Body", TextStyle::new(), &m)
                    .with(
                        FlexBox::new(FlexStyle::new().color(black()))
                            .text("Black Footer", TextStyle::new(), &m),
                    ),
            ),
    );
    let mut commands = kaolin.draw(&m, root);

    commands.next();
    assert_eq!(color_of(commands.next()), red());
    commands.next();
    assert_eq!(color_of(commands.next()), red());
    commands.next();
    assert_eq!(color_of(commands.next()), black());
}
