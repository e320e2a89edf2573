//! Colour palettes: an ordered list of control colours and the linear
//! ramp through them that turns an escape count into a colour.
use vstd::prelude::*;
use vstd::arithmetic::div_mod::{
    lemma_div_is_ordered, lemma_fundamental_div_mod, lemma_fundamental_div_mod_converse,
};

verus! {

/// An opaque RGB colour, one byte per channel.
#[derive(Clone, Copy, Debug, PartialEq, Eq, Structural)]
pub struct Rgb {
    pub r: u8,
    pub g: u8,
    pub b: u8,
}

impl Rgb {
    pub fn new(r: u8, g: u8, b: u8) -> (c: Rgb)
        ensures
            c == (Rgb { r, g, b }),
    {
        Rgb { r, g, b }
    }
}

/// Why a palette could not be built.
#[derive(Clone, Copy, Debug, PartialEq, Eq, Structural)]
pub enum PaletteError {
    /// A palette needs at least two control colours.
    TooFewColors,
}

/// Channel `k` of `c`: 0 is red, 1 green, 2 blue.
pub open spec fn channel(c: Rgb, k: int) -> int {
    if k == 0 {
        c.r as int
    } else if k == 1 {
        c.g as int
    } else {
        c.b as int
    }
}

pub open spec fn abs(v: int) -> int {
    if v < 0 {
        -v
    } else {
        v
    }
}

/// `a + (b - a) * rem / cap`, rounded down.
pub open spec fn lerp(a: int, b: int, rem: int, cap: int) -> int {
    a + (b - a) * rem / cap
}

/// The colour for `n` of `cap` iterations: the position `(len - 1) * n / cap`
/// is split into a control index and a fraction `rem / cap`; the last control
/// colour is returned unmodified at the end of the ramp, elsewhere each channel
/// is interpolated between the control colour at the index and the next one.
pub open spec fn color_at(colors: Seq<Rgb>, n: int, cap: int) -> Rgb {
    let m = (colors.len() - 1) * n;
    let idx = m / cap;
    let rem = m % cap;
    if idx >= colors.len() - 1 {
        colors.last()
    } else {
        Rgb {
            r: lerp(colors[idx].r as int, colors[idx + 1].r as int, rem, cap) as u8,
            g: lerp(colors[idx].g as int, colors[idx + 1].g as int, rem, cap) as u8,
            b: lerp(colors[idx].b as int, colors[idx + 1].b as int, rem, cap) as u8,
        }
    }
}

/// An interpolated channel lies between its two end points.
proof fn lemma_lerp_between(a: int, b: int, rem: int, cap: int)
    requires
        0 <= rem < cap,
    ensures
        a <= b ==> a <= lerp(a, b, rem, cap) <= b,
        b < a ==> b <= lerp(a, b, rem, cap) <= a,
{
    let d = b - a;
    if d >= 0 {
        assert(0 <= d * rem <= d * cap) by (nonlinear_arith)
            requires
                d >= 0,
                0 <= rem < cap,
        ;
        lemma_div_is_ordered(0, d * rem, cap);
        lemma_div_is_ordered(d * rem, d * cap, cap);
        lemma_fundamental_div_mod_converse(d * cap, cap, d, 0);
    } else {
        assert(d * cap <= d * rem <= 0) by (nonlinear_arith)
            requires
                d < 0,
                0 <= rem < cap,
        ;
        lemma_div_is_ordered(d * rem, 0, cap);
        lemma_div_is_ordered(d * cap, d * rem, cap);
        lemma_fundamental_div_mod_converse(d * cap, cap, d, 0);
    }
}

/// `cap` times the exact, unrounded value of channel `k` at ramp position
/// `m / cap`: the ramp runs through the control colours at the multiples of `cap`.
pub open spec fn ramp(colors: Seq<Rgb>, k: int, m: int, cap: int) -> int {
    let i = m / cap;
    if i >= colors.len() - 1 {
        channel(colors.last(), k) * cap
    } else {
        channel(colors[i], k) * cap + (channel(colors[i + 1], k) - channel(colors[i], k)) * (m
            % cap)
    }
}

/// Every adjacent pair of control colours differs by at most `d` in channel `k`.
pub open spec fn steps_bounded(colors: Seq<Rgb>, k: int, d: int) -> bool {
    forall|i: int|
        0 <= i < colors.len() - 1 ==> #[trigger] abs(channel(colors[i + 1], k) - channel(
            colors[i],
            k,
        )) <= d
}

/// Below the cap, a channel of `color_at` is the ramp value rounded down.
proof fn lemma_channel_is_ramp(colors: Seq<Rgb>, k: int, n: int, cap: int)
    requires
        colors.len() >= 2,
        0 <= k < 3,
        0 <= n < cap,
    ensures
        channel(color_at(colors, n, cap), k) == ramp(colors, k, (colors.len() - 1) * n, cap)
            / cap,
{
    let last = colors.len() - 1;
    let m = last * n;
    let i = m / cap;
    let r = m % cap;
    lemma_fundamental_div_mod(m, cap);
    assert(0 <= r < cap);
    assert(0 <= m < last * cap) by (nonlinear_arith)
        requires
            last >= 1,
            0 <= n < cap,
            m == last * n,
    ;
    assert(0 <= i < last) by (nonlinear_arith)
        requires
            m == cap * i + r,
            0 <= r < cap,
            0 <= m < last * cap,
    ;
    let a = channel(colors[i], k);
    let b = channel(colors[i + 1], k);
    lemma_lerp_between(a, b, r, cap);
    let q = (b - a) * r / cap;
    let s = (b - a) * r % cap;
    lemma_fundamental_div_mod((b - a) * r, cap);
    assert(a * cap + (b - a) * r == (a + q) * cap + s) by (nonlinear_arith)
        requires
            (b - a) * r == cap * q + s,
    ;
    lemma_fundamental_div_mod_converse(a * cap + (b - a) * r, cap, a + q, s);
}

/// One step along the ramp moves a channel by at most the largest step between
/// adjacent control colours.
proof fn lemma_ramp_step(colors: Seq<Rgb>, k: int, m: int, cap: int, d: int)
    requires
        colors.len() >= 2,
        0 < cap,
        0 <= m,
        m + 1 < (colors.len() - 1) * cap,
        steps_bounded(colors, k, d),
    ensures
        abs(ramp(colors, k, m + 1, cap) - ramp(colors, k, m, cap)) <= d,
{
    let last = colors.len() - 1;
    let i = m / cap;
    let r = m % cap;
    lemma_fundamental_div_mod(m, cap);
    assert(0 <= i < last) by (nonlinear_arith)
        requires
            m == cap * i + r,
            0 <= r < cap,
            0 <= m,
            m + 1 < last * cap,
    ;
    let a = channel(colors[i], k);
    let b = channel(colors[i + 1], k);
    assert(abs(b - a) <= d);
    if r + 1 < cap {
        lemma_fundamental_div_mod_converse(m + 1, cap, i, r + 1);
        assert((b - a) * (r + 1) == (b - a) * r + (b - a)) by (nonlinear_arith);
    } else {
        assert(m + 1 == (i + 1) * cap + 0) by (nonlinear_arith)
            requires
                m == cap * i + r,
                r + 1 >= cap,
                r < cap,
        ;
        lemma_fundamental_div_mod_converse(m + 1, cap, i + 1, 0);
        assert(i + 1 < last) by (nonlinear_arith)
            requires
                m + 1 == (i + 1) * cap,
                m + 1 < last * cap,
                cap > 0,
        ;
        assert(a * cap + (b - a) * r == b * cap - (b - a)) by (nonlinear_arith)
            requires
                r == cap - 1,
        ;
    }
}

/// `j` steps along the ramp move a channel by at most `d * j`.
proof fn lemma_ramp_steps(colors: Seq<Rgb>, k: int, m: int, j: int, cap: int, d: int)
    requires
        colors.len() >= 2,
        0 < cap,
        0 <= m,
        0 <= j,
        m + j < (colors.len() - 1) * cap,
        steps_bounded(colors, k, d),
    ensures
        abs(ramp(colors, k, m + j, cap) - ramp(colors, k, m, cap)) <= d * j,
    decreases j,
{
    if j > 0 {
        lemma_ramp_steps(colors, k, m, j - 1, cap, d);
        lemma_ramp_step(colors, k, m + j - 1, cap, d);
        assert(d * j == d * (j - 1) + d) by (nonlinear_arith);
    }
}

/// Rounding two values down to multiples of `cap` widens their distance by less than `cap`.
proof fn lemma_floor_gap(a: int, b: int, cap: int)
    requires
        0 < cap,
    ensures
        cap * abs(a / cap - b / cap) < abs(a - b) + cap,
{
    lemma_fundamental_div_mod(a, cap);
    lemma_fundamental_div_mod(b, cap);
    let (qa, ra, qb, rb) = (a / cap, a % cap, b / cap, b % cap);
    assert(cap * abs(qa - qb) < abs(a - b) + cap) by (nonlinear_arith)
        requires
            a == cap * qa + ra,
            b == cap * qb + rb,
            0 <= ra < cap,
            0 <= rb < cap,
            abs(qa - qb) == if qa - qb < 0 { -(qa - qb) } else { qa - qb },
            abs(a - b) == if a - b < 0 { -(a - b) } else { a - b },
    ;
}

/// Continuity of the colour ramp: below the cap, the colours of two adjacent
/// iteration counts differ in each channel by at most the largest step `d`
/// between adjacent control colours, scaled by `(len - 1) / cap`, plus one
/// for rounding.
pub proof fn lemma_palette_continuity(colors: Seq<Rgb>, cap: int, n: int, k: int, d: int)
    requires
        colors.len() >= 2,
        0 <= n,
        n + 1 < cap,
        0 <= k < 3,
        steps_bounded(colors, k, d),
    ensures
        cap * abs(channel(color_at(colors, n + 1, cap), k) - channel(color_at(colors, n, cap), k))
            < d * (colors.len() - 1) + cap,
{
    let last = colors.len() - 1;
    let m = last * n;
    assert(last * (n + 1) == m + last && 0 <= m && m + last < last * cap) by (nonlinear_arith)
        requires
            last >= 1,
            0 <= n,
            n + 1 < cap,
            m == last * n,
    ;
    lemma_ramp_steps(colors, k, m, last, cap, d);
    lemma_channel_is_ramp(colors, k, n, cap);
    lemma_channel_is_ramp(colors, k, n + 1, cap);
    lemma_floor_gap(ramp(colors, k, m + last, cap), ramp(colors, k, m, cap), cap);
}

/// An ordered list of at least two control colours; the last one is the
/// colour of points in the set.
pub struct Palette {
    pub colors: Vec<Rgb>,
}

impl Palette {
    pub open spec fn wf(&self) -> bool {
        self.colors@.len() >= 2
    }

    /// A palette over `colors`, refused when it holds fewer than two.
    pub fn new(colors: Vec<Rgb>) -> (r: Result<Palette, PaletteError>)
        ensures
            colors@.len() >= 2 <==> r is Ok,
            r matches Ok(p) ==> p.wf() && p.colors@ == colors@,
            r matches Err(e) ==> e == PaletteError::TooFewColors,
    {
        if colors.len() < 2 {
            Err(PaletteError::TooFewColors)
        } else {
            Ok(Palette { colors })
        }
    }

    /// Red, orange, yellow, green, blue and purple, with black for the set.
    pub fn classic() -> (p: Palette)
        ensures
            p.wf(),
            p.colors@ == seq![
                Rgb { r: 255, g: 0, b: 0 },
                Rgb { r: 255, g: 165, b: 0 },
                Rgb { r: 255, g: 255, b: 0 },
                Rgb { r: 0, g: 255, b: 0 },
                Rgb { r: 0, g: 0, b: 255 },
                Rgb { r: 127, g: 0, b: 255 },
                Rgb { r: 0, g: 0, b: 0 },
            ],
    {
        let colors = vec![
            Rgb { r: 255, g: 0, b: 0 },
            Rgb { r: 255, g: 165, b: 0 },
            Rgb { r: 255, g: 255, b: 0 },
            Rgb { r: 0, g: 255, b: 0 },
            Rgb { r: 0, g: 0, b: 255 },
            Rgb { r: 127, g: 0, b: 255 },
            Rgb { r: 0, g: 0, b: 0 },
        ];
        let p = Palette { colors };
        assert(p.colors@ =~= seq![
            Rgb { r: 255, g: 0, b: 0 },
            Rgb { r: 255, g: 165, b: 0 },
            Rgb { r: 255, g: 255, b: 0 },
            Rgb { r: 0, g: 255, b: 0 },
            Rgb { r: 0, g: 0, b: 255 },
            Rgb { r: 127, g: 0, b: 255 },
            Rgb { r: 0, g: 0, b: 0 },
        ]);
        p
    }

    /// The colour for `iterations` out of `cap` (see `color_at`); at
    /// `iterations == cap` it is exactly the last control colour.
    pub fn color_for(&self, iterations: usize, cap: usize) -> (c: Rgb)
        requires
            self.wf(),
            0 < cap,
            iterations <= cap,
        ensures
            c == color_at(self.colors@, iterations as int, cap as int),
            iterations == cap ==> c == self.colors@.last(),
    {
        let last = self.colors.len() - 1;
        proof {
            assert(last * iterations <= 0xffff_ffff_ffff_ffff * 0xffff_ffff_ffff_ffff)
                by (nonlinear_arith)
                requires
                    0 <= last <= 0xffff_ffff_ffff_ffff,
                    0 <= iterations <= 0xffff_ffff_ffff_ffff,
            ;
        }
        let m: u128 = last as u128 * iterations as u128;
        let idx = m / cap as u128;
        let rem = m % cap as u128;
        proof {
            if iterations == cap {
                lemma_fundamental_div_mod_converse(m as int, cap as int, last as int, 0);
            }
        }
        if idx >= last as u128 {
            return self.colors[last];
        }
        let i = idx as usize;
        let a = self.colors[i];
        let b = self.colors[i + 1];
        Rgb {
            r: lerp_channel(a.r, b.r, rem, cap),
            g: lerp_channel(a.g, b.g, rem, cap),
            b: lerp_channel(a.b, b.b, rem, cap),
        }
    }
}

/// One channel of the ramp between `a` and `b` at fraction `rem / cap`.
fn lerp_channel(a: u8, b: u8, rem: u128, cap: usize) -> (r: u8)
    requires
        rem < cap,
    ensures
        r == lerp(a as int, b as int, rem as int, cap as int),
{
    proof {
        lemma_lerp_between(a as int, b as int, rem as int, cap as int);
        let d = b - a;
        assert(-255 * 0x1_0000_0000_0000_0000 <= d * rem <= 255 * 0x1_0000_0000_0000_0000)
            by (nonlinear_arith)
            requires
                -255 <= d <= 255,
                0 <= rem < 0x1_0000_0000_0000_0000,
        ;
    }
    let d: i128 = b as i128 - a as i128;
    let prod: i128 = d * rem as i128;
    let q: i128 = match prod.checked_div_euclid(cap as i128) {
        Some(q) => q,
        None => 0,
    };
    (a as i128 + q) as u8
}

} // verus!
