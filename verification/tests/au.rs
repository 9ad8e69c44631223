use pliego_core::au::{Au, AU_PER_PX, MAX_AU, MIN_AU};

#[test]
fn sums_and_differences_stop_at_the_ends_of_the_range() {
    assert_eq!(Au(100).plus(Au(20)), Au(120));
    assert_eq!(Au(MAX_AU).plus(Au(1)), Au(MAX_AU));
    assert_eq!(Au(MIN_AU).plus(Au(-1)), Au(MIN_AU));
    assert_eq!(Au(100).minus(Au(20)), Au(80));
    assert_eq!(Au(MIN_AU).minus(Au(1)), Au(MIN_AU));
    assert_eq!(Au(MAX_AU).minus(Au(-1)), Au(MAX_AU));
}

#[test]
fn products_stop_at_the_ends_of_the_range_even_beyond_the_machine() {
    assert_eq!(Au(7).times(3), Au(21));
    assert_eq!(Au(MAX_AU).times(i32::MAX), Au(MAX_AU));
    assert_eq!(Au(MAX_AU).times(i32::MIN), Au(MIN_AU));
    assert_eq!(Au(MAX_AU).times(0), Au(0));
}

#[test]
fn pixels_are_sixty_units() {
    assert_eq!(AU_PER_PX, 60);
    assert_eq!(Au::from_px(2), Au(120));
    assert_eq!(Au::from_px(i32::MAX), Au(MAX_AU));
    assert_eq!(Au(61).ceil_to_px(), 2);
    assert_eq!(Au(60).ceil_to_px(), 1);
    assert_eq!(Au(0).ceil_to_px(), 0);
    assert_eq!(Au(-59).ceil_to_px(), 0);
    assert_eq!(Au(-61).ceil_to_px(), -1);
    assert_eq!(Au(i32::MAX).ceil_to_px(), 35_791_395);
}

#[test]
fn the_longer_of_two_lengths() {
    assert_eq!(Au(3).at_least(Au(5)), Au(5));
    assert_eq!(Au(7).at_least(Au(5)), Au(7));
    assert_eq!(Au::zero(), Au(0));
}
