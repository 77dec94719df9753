use kaolin::Kaolin;
use kaolin::commands::RenderCommand;
use kaolin::elements::flexbox::FlexBox;
use kaolin::measure::CharCellMeasure;
use kaolin::style::FlexStyle;
use kaolin::style::TextStyle;
use kaolin::style::colors::Color;
use kaolin::style::sizing::BoxSizing;
use kaolin::style::sizing::Sizing;

fn cell() -> CharCellMeasure {
    CharCellMeasure::new(10, 20)
}

fn fixed(v: i64) -> Sizing {
    Sizing::fixed(v).unwrap()
}

fn sizing(w: Sizing, h: Sizing) -> BoxSizing {
    BoxSizing { width: w, height: h }
}

#[test]
fn element_positioning() {
    let kaolin = Kaolin::new((800, 600));
    let m = cell();
    let root = kaolin.root().with(
        FlexBox::new(FlexStyle::new().sizing(sizing(fixed(800), fixed(600))))
            .text("Positioned Text", TextStyle::new(), &m),
    );
    let mut commands = kaolin.draw(&m, root);

    match commands.next().unwrap() {
        RenderCommand::DrawRectangle { x, y, width, height, color, .. } => {
            assert_eq!((x, y, width, height), (0, 0, 800, 600));
            assert_eq!(color, Color::default());
        }
        _ => panic!("expected a rectangle command"),
    }
    match commands.next().unwrap() {
        RenderCommand::DrawText { text, x, y, font_id, font_size, color } => {
            assert_eq!(text, "Positioned Text");
            assert_eq!((x, y), (0, 0));
            assert_eq!((font_id, font_size), (0, 16));
            assert_eq!(color, Color::default());
        }
        _ => panic!("expected a text command"),
    }
    assert!(commands.next().is_none());
}

#[test]
fn repeated_draws_are_identical() {
    let kaolin = Kaolin::new((800, 600));
    let m = cell();
    let build = |k: &Kaolin| {
        k.root().with(
            FlexBox::new(FlexStyle::new().sizing(sizing(fixed(400), fixed(300))))
                .text("Stable", TextStyle::new(), &m),
        )
    };
    let mut first = kaolin.draw(&m, build(&kaolin));
    let mut second = kaolin.draw(&m, build(&kaolin));
    loop {
        let a = first.next();
        let b = second.next();
        match (a, b) {
            (None, None) => break,
            (
                Some(RenderCommand::DrawRectangle { x, y, width, height, .. }),
                Some(
                    RenderCommand::DrawRectangle {
                        x: x2,
                        y: y2,
                        width: w2,
                        height: h2,
                        ..
                    },
                ),
            ) => {
                assert_eq!((x, y, width, height), (x2, y2, w2, h2));
            }
            (
                Some(RenderCommand::DrawText { text, x, y, .. }),
                Some(RenderCommand::DrawText { text: t2, x: x2, y: y2, .. }),
            ) => {
                assert_eq!((text, x, y), (t2, x2, y2));
            }
            _ => panic!("command sequences diverge"),
        }
    }
}
