use mandelbrot::escape::{escape_time, MAX_ITERATIONS};
use mandelbrot::fixed::{Point, ONE};

#[test]
fn origin_never_escapes() {
    assert_eq!(escape_time(Point::new(0, 0)), MAX_ITERATIONS);
}

#[test]
fn two_on_real_axis_escapes_after_one_iteration() {
    // z1 = 2 sits on the radius without exceeding it; z2 = 6 escapes.
    assert_eq!(escape_time(Point::from_units(2, 0)), 1);
}

#[test]
fn three_on_real_axis_escapes_at_once() {
    assert_eq!(escape_time(Point::from_units(3, 0)), 0);
}

#[test]
fn one_on_real_axis_escapes_after_two_iterations() {
    // z1 = 1, z2 = 2, z3 = 5
    assert_eq!(escape_time(Point::from_units(1, 0)), 2);
}

#[test]
fn two_i_escapes_after_one_iteration() {
    // z1 = 2i, z2 = -4 + 2i
    assert_eq!(escape_time(Point::from_units(0, 2)), 1);
}

#[test]
fn minus_two_stays_on_the_radius() {
    assert_eq!(escape_time(Point::from_units(-2, 0)), MAX_ITERATIONS);
}

#[test]
fn minus_one_and_i_are_periodic() {
    assert_eq!(escape_time(Point::from_units(-1, 0)), MAX_ITERATIONS);
    assert_eq!(escape_time(Point::from_units(0, 1)), MAX_ITERATIONS);
}

#[test]
fn quarter_is_in_the_set() {
    assert_eq!(escape_time(Point::new(ONE / 4, 0)), MAX_ITERATIONS);
}

#[test]
fn far_points_escape_without_overflow() {
    assert_eq!(escape_time(Point::new(i64::MAX, i64::MAX)), 0);
    assert_eq!(escape_time(Point::new(i64::MIN, i64::MIN)), 0);
    assert_eq!(escape_time(Point::new(i64::MIN, 0)), 0);
}

#[test]
fn escape_counts_stay_within_the_cap() {
    let step = ONE / 8;
    let mut x = -3 * ONE;
    while x <= 3 * ONE {
        let mut y = -3 * ONE;
        while y <= 3 * ONE {
            assert!(escape_time(Point::new(x, y)) <= MAX_ITERATIONS);
            y += step;
        }
        x += step;
    }
}
