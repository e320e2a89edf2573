//! The rasterizer: every pixel of the frame is mapped to the plane, given its
//! escape count and coloured; the colours are laid out row by row as RGBA bytes.
use vstd::prelude::*;
use rayon::iter::{IndexedParallelIterator, IntoParallelIterator, ParallelIterator};
use crate::escape::{escape_count, escape_time, MAX_ITERATIONS};
use crate::fixed::Point;
use crate::palette::{color_at, Palette, Rgb};
use crate::viewport::{plane_x, plane_y, ViewportState, HEIGHT, WIDTH};

verus! {

/// Number of pixels in a frame.
pub const PIXEL_COUNT: usize = WIDTH * HEIGHT;

/// Bytes per pixel in a frame: red, green, blue, alpha.
pub const BYTES_PER_PIXEL: usize = 4;

/// The colour of pixel `index`, counted row by row from the top-left corner.
pub open spec fn pixel_color_spec(palette: Seq<Rgb>, v: ViewportState, index: int) -> Rgb {
    let c = Point {
        x: plane_x(v, index % (WIDTH as int)) as i64,
        y: plane_y(v, index / (WIDTH as int)) as i64,
    };
    color_at(palette, escape_count(c) as int, MAX_ITERATIONS as int)
}

/// Byte `j` of the RGBA encoding of `c`, with an opaque alpha.
pub open spec fn rgba_byte(c: Rgb, j: int) -> u8 {
    if j == 0 {
        c.r
    } else if j == 1 {
        c.g
    } else if j == 2 {
        c.b
    } else {
        255
    }
}

/// The frame for view `v`: `PIXEL_COUNT` RGBA quadruples in row-major order.
pub open spec fn frame_spec(palette: Seq<Rgb>, v: ViewportState) -> Seq<u8> {
    Seq::new(
        (PIXEL_COUNT * BYTES_PER_PIXEL) as nat,
        |i: int| rgba_byte(pixel_color_spec(palette, v, i / 4), i % 4),
    )
}

/// The colour of pixel `index`: its plane point, that point's escape count,
/// and the palette's colour for that count.
pub fn pixel_color(palette: &Palette, view: &ViewportState, index: usize) -> (c: Rgb)
    requires
        palette.wf(),
        view.wf(),
        index < PIXEL_COUNT,
    ensures
        c == pixel_color_spec(palette.colors@, *view, index as int),
{
    let px = index % WIDTH;
    let py = index / WIDTH;
    let p = view.map_pixel(px, py);
    let n = escape_time(p);
    palette.color_for(n, MAX_ITERATIONS)
}

/// Relies on rayon's indexed parallel iterators: `collect_into_vec` on a
/// mapped range stores the result for `i` at position `i`, whichever thread
/// computed it.
#[verifier::external_body]
fn par_pixel_colors(palette: &Palette, view: &ViewportState) -> (r: Vec<Rgb>)
    requires
        palette.wf(),
        view.wf(),
    ensures
        r@.len() == PIXEL_COUNT,
        forall|i: int|
            0 <= i < PIXEL_COUNT ==> r@[i] == pixel_color_spec(palette.colors@, *view, i),
{
    let mut out = Vec::new();
    (0..PIXEL_COUNT).into_par_iter().map(|i| pixel_color(palette, view, i)).collect_into_vec(
        &mut out,
    );
    out
}

/// Renders the whole frame for `view`, the pixels computed in parallel.
pub fn render(palette: &Palette, view: &ViewportState) -> (frame: Vec<u8>)
    requires
        palette.wf(),
        view.wf(),
    ensures
        frame@ == frame_spec(palette.colors@, *view),
{
    let colors = par_pixel_colors(palette, view);
    let mut frame: Vec<u8> = Vec::new();
    let mut i: usize = 0;
    while i < PIXEL_COUNT
        invariant
            i <= PIXEL_COUNT,
            colors@.len() == PIXEL_COUNT,
            forall|k: int|
                0 <= k < PIXEL_COUNT ==> colors@[k] == pixel_color_spec(palette.colors@, *view, k),
            frame@.len() == 4 * i,
            forall|j: int|
                0 <= j < 4 * i ==> frame@[j] == rgba_byte(
                    pixel_color_spec(palette.colors@, *view, j / 4),
                    j % 4,
                ),
        decreases PIXEL_COUNT - i,
    {
        let c = colors[i];
        frame.push(c.r);
        frame.push(c.g);
        frame.push(c.b);
        frame.push(255);
        proof {
            assert forall|j: int| 0 <= j < 4 * (i + 1) implies frame@[j] == rgba_byte(
                pixel_color_spec(palette.colors@, *view, j / 4),
                j % 4,
            ) by {
                if j >= 4 * i {
                    vstd::arithmetic::div_mod::lemma_fundamental_div_mod_converse(
                        j,
                        4,
                        i as int,
                        j - 4 * i,
                    );
                }
            };
        }
        i = i + 1;
    }
    assert(frame@ =~= frame_spec(palette.colors@, *view));
    frame
}

/// Rendering is a function of the palette and the view alone: two renders of
/// the same view with the same palette give the same bytes.
pub proof fn lemma_frame_determinism(p: Seq<Rgb>, q: Seq<Rgb>, v: ViewportState, w: ViewportState)
    requires
        p == q,
        v == w,
    ensures
        frame_spec(p, v) == frame_spec(q, w),
{
}

} // verus!
