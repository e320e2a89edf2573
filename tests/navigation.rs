use mandelbrot::fixed::Point;
use mandelbrot::viewport::{
    KeyState, ViewportState, DEFAULT_SCALE, HEIGHT, MAX_ZOOM, MIN_ZOOM, OFFSET_LIMIT, PAN_STEP,
    WIDTH,
};

fn keys(up: bool, down: bool, left: bool, right: bool) -> KeyState {
    KeyState { up, down, left, right }
}

#[test]
fn scroll_up_then_down_restores_the_view() {
    let mut v = ViewportState::new();
    v.update(&vec![1], KeyState::none());
    assert_eq!(v.zoom, 1);
    v.update(&vec![-1], KeyState::none());
    assert_eq!(v, ViewportState::new());
}

#[test]
fn only_the_first_scroll_of_a_frame_counts() {
    let mut v = ViewportState::new();
    v.update(&vec![3, 2, 1], KeyState::none());
    assert_eq!(v.zoom, 1);
    v.update(&vec![-1, 1, 1, 1], KeyState::none());
    assert_eq!(v.zoom, 0);
    v.update(&vec![0, 5], KeyState::none());
    assert_eq!(v.zoom, 0);
}

#[test]
fn zoom_stays_within_its_range() {
    let mut v = ViewportState::new();
    for _ in 0..100 {
        v.update(&vec![1], KeyState::none());
    }
    assert_eq!(v.zoom, MAX_ZOOM);
    for _ in 0..200 {
        v.update(&vec![-1], KeyState::none());
    }
    assert_eq!(v.zoom, MIN_ZOOM);
}

#[test]
fn a_key_press_pans_by_fifty_pixels() {
    let mut v = ViewportState::new();
    v.update(&vec![], keys(true, false, false, false));
    assert_eq!(v.offset, Point::new(0, PAN_STEP * DEFAULT_SCALE));
    v.update(&vec![], keys(false, false, true, false));
    assert_eq!(v.offset, Point::new(-PAN_STEP * DEFAULT_SCALE, PAN_STEP * DEFAULT_SCALE));
}

#[test]
fn pan_uses_the_scale_after_this_frames_zoom() {
    let mut v = ViewportState::new();
    v.update(&vec![1], keys(false, false, false, true));
    assert_eq!(v.offset, Point::new(PAN_STEP * DEFAULT_SCALE / 2, 0));
}

#[test]
fn opposite_keys_cancel() {
    let mut v = ViewportState::new();
    v.update(&vec![], keys(true, true, true, true));
    assert_eq!(v.offset, Point::new(0, 0));
}

#[test]
fn offset_is_clamped() {
    let mut v = ViewportState::new();
    for _ in 0..16 {
        v.update(&vec![-1], KeyState::none());
    }
    for _ in 0..100 {
        v.update(&vec![], keys(false, true, false, true));
    }
    assert_eq!(v.offset, Point::new(OFFSET_LIMIT, -OFFSET_LIMIT));
}

#[test]
fn press_edges_come_from_two_snapshots() {
    let prev = keys(true, false, true, false);
    let cur = keys(true, true, false, false);
    assert_eq!(cur.pressed_since(&prev), keys(false, true, false, false));
    assert_eq!(cur.pressed_since(&cur), KeyState::none());
}

#[test]
fn center_pixel_maps_to_the_offset() {
    let mut v = ViewportState::new();
    v.update(&vec![-1], keys(true, false, false, true));
    assert_eq!(v.map_pixel(WIDTH / 2, HEIGHT / 2), v.offset);
    assert_eq!(ViewportState::new().map_pixel(WIDTH / 2, HEIGHT / 2), Point::new(0, 0));
}

#[test]
fn corner_pixel_maps_by_the_scale() {
    let mut v = ViewportState::new();
    assert_eq!(v.map_pixel(0, 0), Point::new(-100 * DEFAULT_SCALE, -100 * DEFAULT_SCALE));
    v.update(&vec![1], KeyState::none());
    assert_eq!(v.map_pixel(0, 199), Point::new(-50 * DEFAULT_SCALE, 99 * DEFAULT_SCALE / 2));
    v.update(&vec![-1], KeyState::none());
    v.update(&vec![-1], KeyState::none());
    assert_eq!(v.map_pixel(199, 0), Point::new(198 * DEFAULT_SCALE, -200 * DEFAULT_SCALE));
}

#[test]
fn deep_zoom_rounds_down() {
    let mut v = ViewportState::new();
    for _ in 0..24 {
        v.update(&vec![1], KeyState::none());
    }
    // 50 * 5368709 / 2^24 = 15.99...
    v.update(&vec![], keys(true, false, false, false));
    assert_eq!(v.offset, Point::new(0, 15));
    // -1 * 5368709 / 2^24 rounds down to -1
    assert_eq!(v.map_pixel(99, 100), Point::new(-1, 15));
}
