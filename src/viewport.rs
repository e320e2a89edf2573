//! The pan/zoom state of the view, its navigation rules, and the mapping
//! from pixels of the frame to points of the plane.
use vstd::prelude::*;
use vstd::arithmetic::power2::{pow2, lemma_pow2_pos, lemma_pow2_unfold, lemma2_to64};
use crate::fixed::Point;

verus! {

/// Frame width in pixels.
pub const WIDTH: usize = 200;

/// Frame height in pixels.
pub const HEIGHT: usize = 200;

/// Plane distance between adjacent pixels at zoom level 0, in fixed-point
/// units: 1/50 of a plane unit.
pub const DEFAULT_SCALE: i64 = 5368709;

/// Distance, in pixels, that one press of a direction key pans the view.
pub const PAN_STEP: i64 = 50;

/// Most zoomed-out level: the scale is at most `2^16` times the default.
pub const MIN_ZOOM: i32 = -16;

/// Most zoomed-in level: the scale is at least `2^-24` times the default.
pub const MAX_ZOOM: i32 = 24;

/// Bound on each part of the view's offset, in fixed-point units (`2^50`).
pub const OFFSET_LIMIT: i64 = 1125899906842624;

/// Numerator of the plane distance between adjacent pixels at `zoom`;
/// each zoom level halves it.
pub open spec fn scale_numer(zoom: int) -> int {
    if zoom >= 0 {
        DEFAULT_SCALE as int
    } else {
        DEFAULT_SCALE * pow2((-zoom) as nat)
    }
}

/// Denominator of the plane distance between adjacent pixels at `zoom`.
pub open spec fn scale_denom(zoom: int) -> int {
    if zoom >= 0 {
        pow2(zoom as nat) as int
    } else {
        1
    }
}

/// Plane distance covered by `d` pixels at `zoom`, rounded down to a fixed-point unit.
pub open spec fn span(zoom: int, d: int) -> int {
    d * scale_numer(zoom) / scale_denom(zoom)
}

/// Which direction keys are held, or were pressed, in one frame.
#[derive(Clone, Copy, Debug, PartialEq, Eq, Structural)]
pub struct KeyState {
    pub up: bool,
    pub down: bool,
    pub left: bool,
    pub right: bool,
}

impl KeyState {
    /// No key.
    pub fn none() -> (k: KeyState)
        ensures
            !k.up && !k.down && !k.left && !k.right,
    {
        KeyState { up: false, down: false, left: false, right: false }
    }

    /// The keys held now that were not held in the previous frame `prev`:
    /// the press edges of this frame.
    pub fn pressed_since(&self, prev: &KeyState) -> (k: KeyState)
        ensures
            k.up == (self.up && !prev.up),
            k.down == (self.down && !prev.down),
            k.left == (self.left && !prev.left),
            k.right == (self.right && !prev.right),
    {
        KeyState {
            up: self.up && !prev.up,
            down: self.down && !prev.down,
            left: self.left && !prev.left,
            right: self.right && !prev.right,
        }
    }
}

/// The view: a zoom level and the plane point shown at the centre of the frame.
#[derive(Clone, Copy, Debug, PartialEq, Eq, Structural)]
pub struct ViewportState {
    /// Number of times the default scale has been halved (negative: doubled).
    pub zoom: i32,
    /// Plane point at the frame's centre pixel.
    pub offset: Point,
}

pub open spec fn offset_in_range(v: int) -> bool {
    -OFFSET_LIMIT <= v <= OFFSET_LIMIT
}

/// `v` moved into the offset range.
pub open spec fn clamp_offset(v: int) -> int {
    if v < -OFFSET_LIMIT {
        -OFFSET_LIMIT as int
    } else if v > OFFSET_LIMIT {
        OFFSET_LIMIT as int
    } else {
        v
    }
}

/// The zoom level after a frame whose first scroll delta is `scroll`:
/// scrolling up zooms in (halves the scale), down zooms out (doubles it),
/// within `MIN_ZOOM ..= MAX_ZOOM`.
pub open spec fn zoom_after(zoom: int, scroll: int) -> int {
    if scroll > 0 {
        if zoom < MAX_ZOOM {
            zoom + 1
        } else {
            zoom
        }
    } else if scroll < 0 {
        if zoom > MIN_ZOOM {
            zoom - 1
        } else {
            zoom
        }
    } else {
        zoom
    }
}

/// The first scroll delta of a frame, 0 where there is none.
pub open spec fn first_scroll(scrolls: Seq<i32>) -> int {
    if scrolls.len() == 0 {
        0
    } else {
        scrolls[0] as int
    }
}

/// Pan along one axis: `plus` and `minus` each move by `step`.
pub open spec fn pan(v: int, step: int, plus: bool, minus: bool) -> int {
    clamp_offset(v + (if plus { step } else { 0 }) - (if minus { step } else { 0 }))
}

/// The view after one frame of input: the first scroll delta changes the
/// zoom, then each pressed direction key moves the offset by `PAN_STEP`
/// pixels at the new scale.
pub open spec fn navigate(v: ViewportState, scrolls: Seq<i32>, keys: KeyState) -> ViewportState {
    let zoom = zoom_after(v.zoom as int, first_scroll(scrolls));
    let step = span(zoom, PAN_STEP as int);
    ViewportState {
        zoom: zoom as i32,
        offset: Point {
            x: pan(v.offset.x as int, step, keys.right, keys.left) as i64,
            y: pan(v.offset.y as int, step, keys.up, keys.down) as i64,
        },
    }
}

/// The view after a sequence of frames of input, applied in order.
pub open spec fn navigate_all(v: ViewportState, frames: Seq<(Seq<i32>, KeyState)>) -> ViewportState
    decreases frames.len(),
{
    if frames.len() == 0 {
        v
    } else {
        navigate_all(navigate(v, frames[0].0, frames[0].1), frames.drop_first())
    }
}

/// Plane x coordinate shown at pixel column `px`.
pub open spec fn plane_x(v: ViewportState, px: int) -> int {
    v.offset.x + span(v.zoom as int, px - WIDTH / 2)
}

/// Plane y coordinate shown at pixel row `py`.
pub open spec fn plane_y(v: ViewportState, py: int) -> int {
    v.offset.y + span(v.zoom as int, py - HEIGHT / 2)
}

/// `2^k`.
fn pow2_of(k: u32) -> (r: i64)
    requires
        k <= 24,
    ensures
        r == pow2(k as nat),
        0 < r <= 16777216,
{
    proof {
        lemma2_to64();
    }
    let mut r: i64 = 1;
    let mut i: u32 = 0;
    while i < k
        invariant
            i <= k <= 24,
            r == pow2(i as nat),
            0 < r <= 16777216,
        decreases k - i,
    {
        proof {
            lemma_pow2_unfold((i + 1) as nat);
            lemma_pow2_monotone((i + 1) as nat, 24);
            lemma2_to64();
        }
        r = r * 2;
        i = i + 1;
    }
    r
}

proof fn lemma_scale_positive(zoom: int)
    ensures
        scale_numer(zoom) > 0,
        scale_denom(zoom) > 0,
{
    if zoom >= 0 {
        lemma_pow2_pos(zoom as nat);
    } else {
        lemma_pow2_pos((-zoom) as nat);
    }
}

/// Dividing by a positive integer brings a value no further from zero.
proof fn lemma_div_shrinks(v: int, b: int, den: int)
    requires
        -b <= v <= b,
        den >= 1,
    ensures
        -b <= v / den <= b,
{
    vstd::arithmetic::div_mod::lemma_fundamental_div_mod(v, den);
    let (q, r) = (v / den, v % den);
    assert(-b <= q <= b) by (nonlinear_arith)
        requires
            v == den * q + r,
            0 <= r < den,
            den >= 1,
            -b <= v <= b,
    ;
}

/// Plane distance covered by `d` pixels at `zoom`.
fn span_of(zoom: i32, d: i64) -> (r: i64)
    requires
        MIN_ZOOM <= zoom <= MAX_ZOOM,
        -1000 <= d <= 1000,
    ensures
        r == span(zoom as int, d as int),
        -0x10_0000_0000_0000 <= r <= 0x10_0000_0000_0000,
{
    proof {
        lemma_scale_positive(zoom as int);
    }
    if zoom >= 0 {
        let den = pow2_of(zoom as u32);
        let v = d * DEFAULT_SCALE;
        proof {
            lemma_div_shrinks(v as int, 5368709000, den as int);
        }
        match v.checked_div_euclid(den) {
            Some(q) => q,
            None => 0,
        }
    } else {
        let p = pow2_of((-zoom) as u32);
        proof {
            lemma_pow2_monotone((-zoom) as nat, 16);
            lemma2_to64();
        }
        let num = DEFAULT_SCALE * p;
        proof {
            assert(-1000 * 5368709 * 65536 <= d * num <= 1000 * 5368709 * 65536) by (nonlinear_arith)
                requires
                    -1000 <= d <= 1000,
                    0 < num <= 5368709 * 65536,
            ;
            assert((d * num) as int / 1 == d * num);
        }
        d * num
    }
}

proof fn lemma_pow2_monotone(a: nat, b: nat)
    requires
        a <= b,
    ensures
        pow2(a) <= pow2(b),
    decreases b - a,
{
    if a < b {
        lemma_pow2_monotone(a, (b - 1) as nat);
        lemma_pow2_unfold(b);
        lemma_pow2_pos((b - 1) as nat);
    }
}

impl ViewportState {
    pub open spec fn wf(&self) -> bool {
        &&& MIN_ZOOM <= self.zoom <= MAX_ZOOM
        &&& offset_in_range(self.offset.x as int)
        &&& offset_in_range(self.offset.y as int)
    }

    /// The starting view: default scale, plane origin at the centre.
    pub fn new() -> (v: ViewportState)
        ensures
            v.wf(),
            v.zoom == 0,
            v.offset == (Point { x: 0, y: 0 }),
    {
        ViewportState { zoom: 0, offset: Point { x: 0, y: 0 } }
    }

    /// Applies one frame of input: `scrolls` are the frame's scroll deltas, of
    /// which only the first counts, by its sign; `keys` are the direction keys
    /// pressed in this frame.
    pub fn update(&mut self, scrolls: &Vec<i32>, keys: KeyState)
        requires
            old(self).wf(),
        ensures
            *final(self) == navigate(*old(self), scrolls@, keys),
            final(self).wf(),
    {
        let mut zoom = self.zoom;
        if scrolls.len() > 0 {
            let s = scrolls[0];
            if s > 0 && zoom < MAX_ZOOM {
                zoom = zoom + 1;
            } else if s < 0 && zoom > MIN_ZOOM {
                zoom = zoom - 1;
            }
        }
        let step = span_of(zoom, PAN_STEP);
        let x = pan_axis(self.offset.x, step, keys.right, keys.left);
        let y = pan_axis(self.offset.y, step, keys.up, keys.down);
        self.zoom = zoom;
        self.offset = Point { x, y };
    }

    /// The plane point shown at pixel `(px, py)`: the offset plus the pixel's
    /// distance from the centre pixel times the scale.
    pub fn map_pixel(&self, px: usize, py: usize) -> (p: Point)
        requires
            self.wf(),
            px < WIDTH,
            py < HEIGHT,
        ensures
            p.x == plane_x(*self, px as int),
            p.y == plane_y(*self, py as int),
    {
        let dx = span_of(self.zoom, px as i64 - (WIDTH / 2) as i64);
        let dy = span_of(self.zoom, py as i64 - (HEIGHT / 2) as i64);
        Point { x: self.offset.x + dx, y: self.offset.y + dy }
    }
}

/// One axis of a pan, kept within the offset range.
fn pan_axis(v: i64, step: i64, plus: bool, minus: bool) -> (r: i64)
    requires
        offset_in_range(v as int),
        -0x10_0000_0000_0000 <= step <= 0x10_0000_0000_0000,
    ensures
        r == pan(v as int, step as int, plus, minus),
        offset_in_range(r as int),
{
    let mut t = v;
    if plus {
        t = t + step;
    }
    if minus {
        t = t - step;
    }
    if t < -OFFSET_LIMIT {
        -OFFSET_LIMIT
    } else if t > OFFSET_LIMIT {
        OFFSET_LIMIT
    } else {
        t
    }
}

/// One frame of input keeps the view well formed.
proof fn lemma_navigate_wf(v: ViewportState, scrolls: Seq<i32>, keys: KeyState)
    requires
        v.wf(),
    ensures
        navigate(v, scrolls, keys).wf(),
{
}

/// Whatever sequence of scroll and key input is applied, the view stays well
/// formed and the plane distance between adjacent pixels stays positive.
pub proof fn lemma_scale_stays_positive(v: ViewportState, frames: Seq<(Seq<i32>, KeyState)>)
    requires
        v.wf(),
    ensures
        navigate_all(v, frames).wf(),
        scale_numer(navigate_all(v, frames).zoom as int) > 0,
        scale_denom(navigate_all(v, frames).zoom as int) > 0,
    decreases frames.len(),
{
    if frames.len() == 0 {
        lemma_scale_positive(v.zoom as int);
    } else {
        lemma_navigate_wf(v, frames[0].0, frames[0].1);
        lemma_scale_stays_positive(navigate(v, frames[0].0, frames[0].1), frames.drop_first());
    }
}

/// The centre pixel shows exactly the view's offset.
pub proof fn lemma_center_maps_to_offset(v: ViewportState)
    ensures
        plane_x(v, (WIDTH / 2) as int) == v.offset.x,
        plane_y(v, (HEIGHT / 2) as int) == v.offset.y,
{
    lemma_scale_positive(v.zoom as int);
    assert(0 * scale_numer(v.zoom as int) == 0);
    vstd::arithmetic::div_mod::lemma_div_of0(scale_denom(v.zoom as int));
}

/// Zooming in and then out again, with no key pressed, restores the view
/// exactly, scale included, unless the view was already zoomed in as far as
/// it goes.
pub proof fn lemma_zoom_round_trip(v: ViewportState, up: Seq<i32>, down: Seq<i32>, keys: KeyState)
    requires
        v.wf(),
        v.zoom < MAX_ZOOM,
        up.len() > 0,
        up[0] > 0,
        down.len() > 0,
        down[0] < 0,
        !keys.up && !keys.down && !keys.left && !keys.right,
    ensures
        navigate(navigate(v, up, keys), down, keys) == v,
{
}

} // verus!
