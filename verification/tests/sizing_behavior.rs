use kaolin::Kaolin;
use kaolin::commands::RenderCommand;
use kaolin::elements::flexbox::FlexBox;
use kaolin::measure::CharCellMeasure;
use kaolin::style::FlexStyle;
use kaolin::style::TextStyle;
use kaolin::style::layout::Direction;
use kaolin::style::layout::Layout;
use kaolin::style::padding::Padding;
use kaolin::style::sizing::BoxSizing;
use kaolin::style::sizing::Sizing;

fn cell() -> CharCellMeasure {
    CharCellMeasure::new(10, 20)
}

fn fixed(v: i64) -> Sizing {
    Sizing::fixed(v).unwrap()
}

fn sizing(w: Sizing, h: Sizing) -> BoxSizing {
    BoxSizing { width: w, height: h }
}

fn position(c: Option<RenderCommand>) -> (i64, i64) {
    match c.unwrap() {
        RenderCommand::DrawRectangle { x, y, .. } => (x, y),
        RenderCommand::DrawText { x, y, .. } => (x, y),
    }
}

fn size(c: Option<RenderCommand>) -> (i64, i64) {
    match c.unwrap() {
        RenderCommand::DrawRectangle { width, height, .. } => (width, height),
        _ => panic!("expected a rectangle command"),
    }
}

fn text_content(c: Option<RenderCommand>) -> String {
    match c.unwrap() {
        RenderCommand::DrawText { text, .. } => text,
        _ => panic!("expected a text command"),
    }
}

#[test]
fn proportional_growth_factors() {
    let kaolin = Kaolin::new((800, 600));
    let m = cell();
    let root = kaolin
        .root()
        .with(FlexBox::new(FlexStyle::new().sizing(sizing(Sizing::grow(), Sizing::grow()))))
        .with(FlexBox::new(
            FlexStyle::new().sizing(
                sizing(Sizing::grow_factor(3).unwrap(), Sizing::grow_factor(3).unwrap()),
            ),
        ));
    let mut commands = kaolin.draw(&m, root);

    let first = commands.next();
    match first {
        Some(RenderCommand::DrawRectangle { x, y, width, height, .. }) => {
            assert_eq!((width, height), (200, 600));
            assert_eq!((x, y), (0, 0));
        }
        _ => panic!("expected a rectangle command"),
    }
    let second = commands.next();
    match second {
        Some(RenderCommand::DrawRectangle { x, y, width, height, .. }) => {
            assert_eq!((width, height), (600, 600));
            assert_eq!((x, y), (200, 0));
        }
        _ => panic!("expected a rectangle command"),
    }
}

#[test]
fn mixed_fixed_and_growable_sizing() {
    let kaolin = Kaolin::new((800, 600));
    let m = cell();
    let root = kaolin
        .root()
        .with(FlexBox::new(FlexStyle::new().sizing(sizing(fixed(200), fixed(200)))))
        .with(FlexBox::new(FlexStyle::new().sizing(sizing(Sizing::grow(), Sizing::grow()))))
        .with(FlexBox::new(FlexStyle::new().sizing(sizing(fixed(100), fixed(100)))));
    let mut commands = kaolin.draw(&m, root);

    assert_eq!(size(commands.next()).0, 200);
    assert_eq!(size(commands.next()).0, 500);
    assert_eq!(size(commands.next()).0, 100);
}

#[test]
fn size_constraints_with_growth() {
    let kaolin = Kaolin::new((800, 600));
    let m = cell();
    let root = kaolin
        .root()
        .with(FlexBox::new(
            FlexStyle::new().sizing(
                sizing(Sizing::grow_bounded(1, 50, 150).unwrap(), Sizing::grow()),
            ),
        ))
        .with(FlexBox::new(FlexStyle::new().sizing(sizing(Sizing::grow(), Sizing::grow()))));
    let mut commands = kaolin.draw(&m, root);

    assert_eq!(size(commands.next()).0, 150);
    assert_eq!(size(commands.next()).0, 650);
}

#[test]
fn fit_sizing_with_max_constraint() {
    let kaolin = Kaolin::new((800, 600));
    let m = cell();
    let root = kaolin.root().with(
        FlexBox::new(
            FlexStyle::new().sizing(sizing(Sizing::fit_max(200).unwrap(), Sizing::fit())),
        )
        .text("Very long text that should be constrained", TextStyle::new(), &m),
    );
    let mut commands = kaolin.draw(&m, root);

    assert_eq!(size(commands.next()), (200, 60));
    assert_eq!(text_content(commands.next()), "Very long text that");
    assert_eq!(text_content(commands.next()), "should be");
    assert_eq!(text_content(commands.next()), "constrained");
}

#[test]
fn fit_sizing_adapts_to_content() {
    let kaolin = Kaolin::new((800, 600));
    let m = cell();
    let root = kaolin.root().with(
        FlexBox::new(FlexStyle::new().sizing(sizing(Sizing::fit(), Sizing::fit())))
            .text("Short", TextStyle::new(), &m),
    );
    let mut commands = kaolin.draw(&m, root);

    assert_eq!(size(commands.next()), (50, 20));
}

#[test]
fn vertical_growth_behavior() {
    let kaolin = Kaolin::new((800, 600));
    let m = cell();
    let root = kaolin.root().with(
        FlexBox::new(
            FlexStyle::new().sizing(sizing(fixed(800), fixed(600))).layout(
                Layout::new().direction(Direction::TopToBottom),
            ),
        )
        .with(FlexBox::new(FlexStyle::new().sizing(sizing(fixed(800), Sizing::grow()))))
        .with(FlexBox::new(
            FlexStyle::new().sizing(sizing(fixed(800), Sizing::grow_factor(2).unwrap())),
        )),
    );
    let mut commands = kaolin.draw(&m, root);

    assert_eq!(size(commands.next()), (800, 600));
    assert_eq!(size(commands.next()), (800, 200));
    assert_eq!(size(commands.next()), (800, 400));
}

#[test]
fn nested_growth_behavior() {
    let kaolin = Kaolin::new((800, 600));
    let m = cell();
    let root = kaolin
        .root()
        .with(
            FlexBox::new(FlexStyle::new().sizing(sizing(Sizing::grow(), Sizing::grow()))).with(
                FlexBox::new(FlexStyle::new().sizing(sizing(Sizing::grow(), Sizing::fit())))
                    .text("Nested", TextStyle::new(), &m),
            ),
        )
        .with(FlexBox::new(FlexStyle::new().sizing(sizing(Sizing::grow(), Sizing::grow()))));
    let mut commands = kaolin.draw(&m, root);

    assert_eq!(size(commands.next()), (400, 600));
    assert_eq!(size(commands.next()), (400, 20));
    assert_eq!(text_content(commands.next()), "Nested");
    assert_eq!(size(commands.next()), (400, 600));
}

#[test]
fn growth_with_padding() {
    let kaolin = Kaolin::new((800, 600));
    let m = cell();
    let root = kaolin.root().with(
        FlexBox::new(
            FlexStyle::new().sizing(sizing(fixed(800), fixed(600))).padding(Padding::all(50)),
        )
        .with(FlexBox::new(FlexStyle::new().sizing(sizing(Sizing::grow(), Sizing::grow()))))
        .with(FlexBox::new(FlexStyle::new().sizing(sizing(Sizing::grow(), Sizing::grow())))),
    );
    let mut commands = kaolin.draw(&m, root);

    assert_eq!(size(commands.next()), (800, 600));
    let first = commands.next();
    match first {
        Some(RenderCommand::DrawRectangle { x, y, width, height, .. }) => {
            assert_eq!((width, height), (350, 500));
            assert_eq!((x, y), (50, 50));
        }
        _ => panic!("expected a rectangle command"),
    }
    let second = commands.next();
    match second {
        Some(RenderCommand::DrawRectangle { x, y, width, height, .. }) => {
            assert_eq!((width, height), (350, 500));
            assert_eq!((x, y), (400, 50));
        }
        _ => panic!("expected a rectangle command"),
    }
}

#[test]
fn uneven_budget_distribution() {
    // 10 units over three equal growers: each receives the truncating share
    // 10/3 = 3, and the leftover unit is still handed out, to the first of
    // the smallest tier, so the whole budget is spent
    let kaolin = Kaolin::new((10, 40));
    let m = cell();
    let root = kaolin
        .root()
        .with(FlexBox::new(FlexStyle::new().sizing(sizing(Sizing::grow(), fixed(40)))))
        .with(FlexBox::new(FlexStyle::new().sizing(sizing(Sizing::grow(), fixed(40)))))
        .with(FlexBox::new(FlexStyle::new().sizing(sizing(Sizing::grow(), fixed(40)))));
    let mut commands = kaolin.draw(&m, root);

    assert_eq!(size(commands.next()).0, 4);
    assert_eq!(size(commands.next()).0, 3);
    assert_eq!(size(commands.next()).0, 3);
}

#[test]
fn basic_shrinking_scenario() {
    let kaolin = Kaolin::new((300, 200));
    let m = cell();
    let root = kaolin.root().with(
        FlexBox::new(FlexStyle::new().sizing(sizing(fixed(300), fixed(200))))
            .with(FlexBox::new(FlexStyle::new().sizing(sizing(fixed(200), fixed(200)))))
            .with(FlexBox::new(FlexStyle::new().sizing(sizing(fixed(150), fixed(150))))),
    );
    let mut commands = kaolin.draw(&m, root);

    assert_eq!(size(commands.next()), (300, 200));
    let _ = position(commands.next());
}
