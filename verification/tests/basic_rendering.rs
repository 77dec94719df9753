use kaolin::Kaolin;
use kaolin::commands::RenderCommand;
use kaolin::elements::flexbox::FlexBox;
use kaolin::measure::CharCellMeasure;
use kaolin::style::FlexStyle;
use kaolin::style::TextStyle;
use kaolin::style::border::Border;
use kaolin::style::colors::Color;
use kaolin::style::sizing::BoxSizing;
use kaolin::style::sizing::Sizing;

fn cell() -> CharCellMeasure {
    CharCellMeasure::new(10, 20)
}

fn fixed(v: i64) -> Sizing {
    Sizing::fixed(v).unwrap()
}

fn sizing(w: Sizing, h: Sizing) -> BoxSizing {
    BoxSizing { width: w, height: h }
}

fn expect_rect(c: Option<RenderCommand>, x: i64, y: i64, w: i64, h: i64) {
    match c.unwrap() {
        RenderCommand::DrawRectangle {
            x: cx,
            y: cy,
            width,
            height,
            color,
            corner_radius,
            border,
            ..
        } => {
            assert_eq!((cx, cy, width, height), (x, y, w, h));
            assert_eq!(color, Color::default());
            assert_eq!(corner_radius, 0);
            assert_eq!(border, Border::default());
        }
        _ => panic!("expected a rectangle command"),
    }
}

fn expect_text(c: Option<RenderCommand>, content: &str, x: i64, y: i64, id: u32, fs: i64) {
    match c.unwrap() {
        RenderCommand::DrawText { text, x: cx, y: cy, font_id, font_size, color } => {
            assert_eq!(text, content);
            assert_eq!((cx, cy), (x, y));
            assert_eq!((font_id, font_size), (id, fs));
            assert_eq!(color, Color::default());
        }
        _ => panic!("expected a text command"),
    }
}

#[test]
fn render_text_element() {
    let kaolin = Kaolin::new((800, 600));
    let m = cell();
    let root = kaolin.root().text("Hello, Kaolin!", TextStyle::new(), &m);
    let mut commands = kaolin.draw(&m, root);

    expect_text(commands.next(), "Hello, Kaolin!", 0, 0, 0, 16);
    assert!(commands.next().is_none());
}

#[test]
fn render_empty_flex_container() {
    let kaolin = Kaolin::new((800, 600));
    let m = cell();
    let root = kaolin
        .root()
        .with(FlexBox::new(FlexStyle::new().sizing(sizing(fixed(800), fixed(600)))));
    let mut commands = kaolin.draw(&m, root);

    expect_rect(commands.next(), 0, 0, 800, 600);
    assert!(commands.next().is_none());
}

#[test]
fn render_text_with_custom_font() {
    let kaolin = Kaolin::new((800, 600));
    let m = cell();
    let root = kaolin
        .root()
        .text("Custom Font", TextStyle::new().font_id(5).font_size(24), &m);
    let mut commands = kaolin.draw(&m, root);

    expect_text(commands.next(), "Custom Font", 0, 0, 5, 24);
    assert!(commands.next().is_none());
}

#[test]
fn render_container_with_text() {
    let kaolin = Kaolin::new((800, 600));
    let m = cell();
    let root = kaolin.root().with(
        FlexBox::new(FlexStyle::new().sizing(sizing(fixed(200), fixed(100))))
            .text("Inside", TextStyle::new(), &m),
    );
    let mut commands = kaolin.draw(&m, root);

    expect_rect(commands.next(), 0, 0, 200, 100);
    expect_text(commands.next(), "Inside", 0, 0, 0, 16);
    assert!(commands.next().is_none());
}

#[test]
fn render_multiple_text_elements() {
    let kaolin = Kaolin::new((800, 600));
    let m = cell();
    let root = kaolin
        .root()
        .text("First", TextStyle::new(), &m)
        .text("Second", TextStyle::new(), &m)
        .text("Third", TextStyle::new(), &m);
    let mut commands = kaolin.draw(&m, root);

    expect_text(commands.next(), "First", 0, 0, 0, 16);
    expect_text(commands.next(), "Second", 50, 0, 0, 16);
    expect_text(commands.next(), "Third", 110, 0, 0, 16);
    assert!(commands.next().is_none());
}

#[test]
fn render_fit_to_content_container() {
    let kaolin = Kaolin::new((800, 600));
    let m = cell();
    let root = kaolin
        .root()
        .with(FlexBox::new(FlexStyle::new()).text("Auto Size", TextStyle::new(), &m));
    let mut commands = kaolin.draw(&m, root);

    expect_rect(commands.next(), 0, 0, 90, 20);
    expect_text(commands.next(), "Auto Size", 0, 0, 0, 16);
    assert!(commands.next().is_none());
}
