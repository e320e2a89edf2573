use mandelbrot::escape::MAX_ITERATIONS;
use mandelbrot::palette::{Palette, PaletteError, Rgb};

#[test]
fn terminal_color_is_the_last_control_color() {
    let p = Palette::classic();
    assert_eq!(p.color_for(MAX_ITERATIONS, MAX_ITERATIONS), Rgb::new(0, 0, 0));
    assert_eq!(p.color_for(MAX_ITERATIONS, MAX_ITERATIONS), *p.colors.last().unwrap());
}

#[test]
fn zero_iterations_give_the_first_color() {
    assert_eq!(Palette::classic().color_for(0, MAX_ITERATIONS), Rgb::new(255, 0, 0));
}

#[test]
fn control_points_are_hit_exactly() {
    // 6 * 25 / 50 = 3: the fourth control colour, green
    assert_eq!(Palette::classic().color_for(25, MAX_ITERATIONS), Rgb::new(0, 255, 0));
}

#[test]
fn rising_channel_is_interpolated_and_rounded_down() {
    let p = Palette::classic();
    // position 6 / 50 between red and orange: 165 * 6 / 50 = 19.8
    assert_eq!(p.color_for(1, MAX_ITERATIONS), Rgb::new(255, 19, 0));
    // position 1 + 10 / 50 between orange and yellow: 165 + 90 * 10 / 50 = 183
    assert_eq!(p.color_for(10, MAX_ITERATIONS), Rgb::new(255, 183, 0));
}

#[test]
fn falling_channel_is_interpolated_and_rounded_down() {
    let p = Palette::classic();
    // yellow to green at 20 / 50: 255 - 255 * 20 / 50 = 153
    assert_eq!(p.color_for(20, MAX_ITERATIONS), Rgb::new(153, 255, 0));
    // at 26 / 50: 255 - 132.6 rounds down to 122
    assert_eq!(p.color_for(21, MAX_ITERATIONS), Rgb::new(122, 255, 0));
}

#[test]
fn adjacent_counts_give_close_colors() {
    let p = Palette::classic();
    let cap = MAX_ITERATIONS;
    let steps = p.colors.len() - 1;
    for n in 0..cap - 1 {
        let a = p.color_for(n, cap);
        let b = p.color_for(n + 1, cap);
        for (x, y) in [(a.r, b.r), (a.g, b.g), (a.b, b.b)] {
            let diff = (x as i64 - y as i64).abs() as usize;
            assert!(cap * diff < 255 * steps + cap);
        }
    }
}

#[test]
fn short_palettes_are_refused() {
    assert_eq!(Palette::new(vec![]).err(), Some(PaletteError::TooFewColors));
    assert_eq!(
        Palette::new(vec![Rgb::new(1, 2, 3)]).err(),
        Some(PaletteError::TooFewColors)
    );
}

#[test]
fn two_color_palette_ramps_between_them() {
    let p = Palette::new(vec![Rgb::new(0, 100, 200), Rgb::new(200, 100, 0)]).unwrap();
    assert_eq!(p.color_for(0, 4), Rgb::new(0, 100, 200));
    assert_eq!(p.color_for(1, 4), Rgb::new(50, 100, 150));
    assert_eq!(p.color_for(3, 4), Rgb::new(150, 100, 50));
    assert_eq!(p.color_for(4, 4), Rgb::new(200, 100, 0));
}

#[test]
fn small_cap_skips_control_colors() {
    let p = Palette::classic();
    // 6 * 1 / 4 = 1.5: halfway from orange to yellow
    assert_eq!(p.color_for(1, 4), Rgb::new(255, 210, 0));
}
