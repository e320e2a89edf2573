use mandelbrot::palette::Palette;
use mandelbrot::raster::{pixel_color, render, BYTES_PER_PIXEL, PIXEL_COUNT};
use mandelbrot::viewport::{KeyState, ViewportState, WIDTH};

#[test]
fn frame_has_four_bytes_per_pixel() {
    let frame = render(&Palette::classic(), &ViewportState::new());
    assert_eq!(frame.len(), PIXEL_COUNT * BYTES_PER_PIXEL);
    assert_eq!(frame.len(), 200 * 200 * 4);
}

#[test]
fn frame_center_is_in_the_set_and_corner_escapes() {
    let frame = render(&Palette::classic(), &ViewportState::new());
    let center = (100 * WIDTH + 100) * 4;
    assert_eq!(&frame[center..center + 4], &[0, 0, 0, 255]);
    assert_eq!(&frame[0..4], &[255, 0, 0, 255]);
}

#[test]
fn two_renders_of_one_view_are_identical() {
    let p = Palette::classic();
    let mut v = ViewportState::new();
    v.update(&vec![1], KeyState { up: false, down: false, left: true, right: false });
    assert_eq!(render(&p, &v), render(&p, &v));
}

#[test]
fn parallel_frame_matches_pixel_by_pixel_colors() {
    let p = Palette::classic();
    let mut v = ViewportState::new();
    v.update(&vec![1], KeyState { up: false, down: true, left: true, right: false });
    let frame = render(&p, &v);
    for i in 0..PIXEL_COUNT {
        let c = pixel_color(&p, &v, i);
        assert_eq!(&frame[4 * i..4 * i + 4], &[c.r, c.g, c.b, 255]);
    }
    // the picture is not one flat colour
    assert!(frame.chunks(4).any(|q| q != &frame[0..4]));
}

#[test]
fn alpha_is_always_opaque() {
    let frame = render(&Palette::classic(), &ViewportState::new());
    assert!(frame.chunks(4).all(|q| q[3] == 255));
}
