use kaolin::Kaolin;
use kaolin::elements::flexbox::FlexBox;
use kaolin::measure::CharCellMeasure;
use kaolin::style::FlexStyle;
use kaolin::style::sizing::BoxSizing;
use kaolin::style::sizing::Sizing;

#[test]
fn dynamic_growth_behavior() {
    // a smoke run: two growers at factors 1 and 2 lay out and emit without
    // trouble; the split itself carries fractions and is pinned elsewhere
    let kaolin = Kaolin::new((800, 600));
    let m = CharCellMeasure::new(10, 20);
    let root = kaolin
        .root()
        .with(FlexBox::new(
            FlexStyle::new().sizing(BoxSizing { width: Sizing::grow(), height: Sizing::grow() }),
        ))
        .with(FlexBox::new(
            FlexStyle::new().sizing(
                BoxSizing {
                    width: Sizing::grow_factor(2).unwrap(),
                    height: Sizing::grow_factor(2).unwrap(),
                },
            ),
        ));
    let mut commands = kaolin.draw(&m, root);
    let mut count: usize = 0;
    while let Some(_command) = commands.next() {
        count += 1;
    }
    assert_eq!(count, 2);
}
