use arcode::Range;
use arcode::SourceModelBuilder;

#[test]
fn range_constructor() {
    let range = Range::new(5);
    assert_eq!(range.high, 32);
    assert_eq!(range.one_quarter_mark, range.high / 4);
    assert_eq!(range.half, range.high / 2);
    assert_eq!(range.three_quarter_mark, range.high - range.one_quarter_mark);

    assert_eq!(range.half, range.half());
    assert_eq!(range.one_quarter_mark, range.quarter());
}

#[test]
fn calculate_range() {
    let model = SourceModelBuilder::new().num_symbols(3).build();

    let range = Range::new(8);
    assert_eq!(range.calculate_range(0, &model), (0, 85));
    assert_eq!(range.calculate_range(1, &model), (85, 170));
    assert_eq!(range.calculate_range(2, &model), (170, 256));
}

#[test]
fn test_range() {
    let model = SourceModelBuilder::new().num_symbols(3).build();

    let mut range = Range::new(8);
    let lh = range.calculate_range(0, &model);
    range.update_range(lh);
    assert_eq!(range.in_bottom_half(), true);
    assert_eq!(range.in_upper_half(), false);
    assert_eq!(range.in_middle_half(), false);
    assert_eq!(range.in_bottom_quarter(), true);

    let model = SourceModelBuilder::new().num_symbols(3).build();

    let mut range = Range::new(8);
    let lh = range.calculate_range(2, &model);
    range.update_range(lh);
    assert_eq!(range.in_bottom_half(), false);
    assert_eq!(range.in_upper_half(), true);
    assert_eq!(range.in_middle_half(), false);
    assert_eq!(range.in_bottom_quarter(), false);

    let model = SourceModelBuilder::new().num_symbols(100).build();

    let mut range = Range::new(12);
    let lh = range.calculate_range(50, &model);
    range.update_range(lh);
    assert_eq!(range.in_bottom_half(), false);
    assert_eq!(range.in_upper_half(), false);
    assert_eq!(range.in_middle_half(), true);
    assert_eq!(range.in_bottom_quarter(), false);
}

/// Each scaling doubles the interval width and keeps it inside the coding
/// space.
#[test]
fn scaling_doubles_width() {
    // bottom half: [10, 60) inside 2^8 = 256
    let mut range = Range::new(8);
    range.update_range((10, 60));
    assert!(range.in_bottom_half());
    range.scale_bottom_half();
    assert_eq!((range.low, range.high), (20, 120));
    assert_eq!(range.high - range.low, 100);

    // upper half: [150, 230)
    let mut range = Range::new(8);
    range.update_range((150, 230));
    assert!(range.in_upper_half());
    range.scale_upper_half();
    assert_eq!((range.low, range.high), (44, 204));
    assert_eq!(range.high - range.low, 160);

    // middle half: [100, 150)
    let mut range = Range::new(8);
    range.update_range((100, 150));
    assert!(range.in_middle_half());
    range.scale_middle_half();
    assert_eq!((range.low, range.high), (72, 172));
    assert_eq!(range.high - range.low, 100);
    assert!(range.low < range.high && range.high <= 256);
}
