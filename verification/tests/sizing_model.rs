use kaolin::measure::CharCellMeasure;
use kaolin::measure::TextMeasure;
use kaolin::style::TextStyle;
use kaolin::style::colors::Color;
use kaolin::style::colors::Colors;
use kaolin::style::layout::Direction;
use kaolin::style::sizing::MAX_DIM;
use kaolin::style::sizing::Sizing;
use kaolin::style::sizing::SizingError;

#[test]
fn clamped_stays_within_bounds() {
    let dims = Sizing::fit_min_max(100, 300).unwrap().dimensions();
    assert_eq!(dims.clamped(250), 250);
    assert_eq!(dims.clamped(50), 100);
    assert_eq!(dims.clamped(350), 300);
    assert_eq!(dims.clamped(i64::MIN), 100);
    assert_eq!(dims.clamped(i64::MAX), 300);
    assert_eq!(dims.min(), 100);
    assert_eq!(dims.max(), 300);
}

#[test]
fn fixed_sizing_pins_all_bounds() {
    let dims = Sizing::fixed(200).unwrap().dimensions();
    assert_eq!(dims.min(), 200);
    assert_eq!(dims.max(), 200);
    assert!(dims.is_fixed());
    assert!(!dims.is_growable());
    assert!(!dims.is_shrinkable());
    assert_eq!(dims.get_grow_factor(), 0);
}

#[test]
fn grow_sizing_defaults() {
    let dims = Sizing::grow().dimensions();
    assert_eq!(dims.min(), 0);
    assert_eq!(dims.max(), MAX_DIM);
    assert!(dims.is_growable());
    assert!(dims.is_shrinkable());
    assert_eq!(dims.get_grow_factor(), 1);
    assert_eq!(Sizing::grow_factor(7).unwrap().dimensions().get_grow_factor(), 7);
}

#[test]
fn sizing_construction_errors() {
    assert_eq!(Sizing::fixed(-1).unwrap_err(), SizingError::Negative);
    assert_eq!(Sizing::fit_max(-3).unwrap_err(), SizingError::Negative);
    assert_eq!(Sizing::fit_min_max(0, -1).unwrap_err(), SizingError::Negative);
    assert_eq!(Sizing::fit_min_max(10, 5).unwrap_err(), SizingError::Inverted);
    assert_eq!(Sizing::grow_factor(-2).unwrap_err(), SizingError::Negative);
    assert_eq!(Sizing::grow_bounded(1, -1, 10).unwrap_err(), SizingError::Negative);
    assert_eq!(Sizing::grow_bounded(1, 10, 1).unwrap_err(), SizingError::Inverted);
    assert!(Sizing::fixed(0).is_ok());
    assert!(Sizing::fit_min_max(5, 5).is_ok());
}

#[test]
fn direction_axis() {
    assert!(Direction::LeftToRight.is_horizontal());
    assert!(Direction::RightToLeft.is_horizontal());
    assert!(!Direction::TopToBottom.is_horizontal());
    assert!(!Direction::BottomToTop.is_horizontal());
}

#[test]
fn color_conversions() {
    assert_eq!(Color::from(0xFF00_00FFu32).rgba(), (255, 0, 0, 255));
    assert_eq!(Color::from(0x1234_5678u32).rgba(), (0x12, 0x34, 0x56, 0x78));
    assert_eq!(Color::from((1u8, 2u8, 3u8)).rgba(), (1, 2, 3, 255));
    assert_eq!(Color::from((9u8, 8u8, 7u8, 6u8)).rgba(), (9, 8, 7, 6));
    assert_eq!(Color::from(Colors::White).rgba(), (255, 255, 255, 255));
    assert_eq!(Color::from(Colors::Transparent).rgba(), (0, 0, 0, 0));
    assert_eq!(Color::from(Colors::Green).rgba(), (0, 255, 0, 255));
    assert_eq!(Color::from(Colors::Blue).rgba(), (0, 0, 255, 255));
    assert_eq!(Color::default().rgba(), (0, 0, 0, 255));
    let quad: (u8, u8, u8, u8) = Colors::Red.into();
    assert_eq!(quad, (255, 0, 0, 255));
}

#[test]
fn char_cell_measurement() {
    let m = CharCellMeasure::new(10, 20);
    assert_eq!(m.measure("Hello", &TextStyle::new()), (50, 20));
    assert_eq!(m.measure("", &TextStyle::new()), (0, 20));
    let clamped = CharCellMeasure::new(-5, MAX_DIM + 7);
    assert_eq!(clamped.measure("abc", &TextStyle::new()), (0, MAX_DIM));
}
