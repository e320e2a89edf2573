//! The escape-time kernel: iterates `z -> z^2 + c` from `z = 0` and counts
//! the iterations completed before `|z|` exceeds the escape radius 2.
use vstd::prelude::*;
use crate::fixed::{Point, ONE};

verus! {

/// Iteration cap: a point whose orbit stays within the radius this long is in the set.
pub const MAX_ITERATIONS: usize = 50;

/// The escape radius, 2.0, in fixed-point units.
pub const RADIUS: i64 = 536870912;

/// `|z| > 2`, stated on fixed-point parts as `x^2 + y^2 > 4` scaled by `ONE^2`.
pub open spec fn escaped(z: (int, int)) -> bool {
    z.0 * z.0 + z.1 * z.1 > 4 * ONE * ONE
}

/// One step of the recurrence, `z^2 + c`, each product rounded down to a fixed-point unit.
pub open spec fn step(z: (int, int), c: Point) -> (int, int) {
    ((z.0 * z.0 - z.1 * z.1) / (ONE as int) + c.x, (2 * z.0 * z.1) / (ONE as int) + c.y)
}

/// `z_k`, the k-th point of the orbit of `c`, with `z_0 = 0`.
pub open spec fn orbit(c: Point, k: nat) -> (int, int)
    decreases k,
{
    if k == 0 {
        (0, 0)
    } else {
        step(orbit(c, (k - 1) as nat), c)
    }
}

/// The escape count, given that none of `z_1 ..= z_k` has escaped.
pub open spec fn escape_count_from(c: Point, k: nat) -> nat
    decreases MAX_ITERATIONS - k,
{
    if k >= MAX_ITERATIONS {
        MAX_ITERATIONS as nat
    } else if escaped(orbit(c, k + 1)) {
        k
    } else {
        escape_count_from(c, k + 1)
    }
}

/// Number of iterations completed before the orbit of `c` leaves the radius,
/// or `MAX_ITERATIONS` where it never does within the cap.
pub open spec fn escape_count(c: Point) -> nat {
    escape_count_from(c, 0)
}

proof fn lemma_count_bounded(c: Point, k: nat)
    requires
        k <= MAX_ITERATIONS,
    ensures
        k <= escape_count_from(c, k) <= MAX_ITERATIONS,
    decreases MAX_ITERATIONS - k,
{
    if k < MAX_ITERATIONS && !escaped(orbit(c, k + 1)) {
        lemma_count_bounded(c, k + 1);
    }
}

/// Every escape count lies in `0 ..= MAX_ITERATIONS`.
pub proof fn lemma_escape_count_bounded(c: Point)
    ensures
        escape_count(c) <= MAX_ITERATIONS,
{
    lemma_count_bounded(c, 0);
}

/// `floor(v / ONE)`.
fn div_floor_one(v: i128) -> (r: i128)
    ensures
        r == v as int / (ONE as int),
{
    match v.checked_div_euclid(ONE as i128) {
        Some(q) => q,
        // the quotient of an i128 by ONE always fits
        None => 0,
    }
}

/// Whether `(x, y)` lies outside the escape radius.
fn is_escaped(x: i128, y: i128) -> (r: bool)
    requires
        -0x1_0000_0000_0000_0000 <= x <= 0x1_0000_0000_0000_0000,
        -0x1_0000_0000_0000_0000 <= y <= 0x1_0000_0000_0000_0000,
    ensures
        r == escaped((x as int, y as int)),
{
    let lim = RADIUS as i128;
    if x > lim || x < -lim || y > lim || y < -lim {
        proof {
            let (xi, yi) = (x as int, y as int);
            assert(xi * xi + yi * yi > 288230376151711744) by (nonlinear_arith)
                requires
                    xi > 536870912 || xi < -536870912 || yi > 536870912 || yi < -536870912,
            ;
        }
        true
    } else {
        proof {
            assert(0 <= x * x <= 288230376151711744 && 0 <= y * y <= 288230376151711744)
                by (nonlinear_arith)
                requires
                    -536870912 <= x <= 536870912,
                    -536870912 <= y <= 536870912,
            ;
        }
        let xx = x * x;
        let yy = y * y;
        xx + yy > 4 * (ONE as i128) * (ONE as i128)
    }
}

/// Counts the iterations of `z -> z^2 + c` completed before `|z| > 2`,
/// capped at `MAX_ITERATIONS`.
pub fn escape_time(c: Point) -> (r: usize)
    ensures
        r == escape_count(c),
        r <= MAX_ITERATIONS,
{
    proof {
        lemma_escape_count_bounded(c);
    }
    let cx = c.x as i128;
    let cy = c.y as i128;
    let mut x: i128 = 0;
    let mut y: i128 = 0;
    let mut n: usize = 0;
    while n < MAX_ITERATIONS
        invariant
            n <= MAX_ITERATIONS,
            (x as int, y as int) == orbit(c, n as nat),
            escape_count(c) == escape_count_from(c, n as nat),
            -RADIUS <= x <= RADIUS,
            -RADIUS <= y <= RADIUS,
            cx == c.x,
            cy == c.y,
        decreases MAX_ITERATIONS - n,
    {
        proof {
            let (xi, yi) = (x as int, y as int);
            assert(0 <= xi * xi <= 288230376151711744 && 0 <= yi * yi <= 288230376151711744
                && -576460752303423488 <= 2 * xi * yi <= 576460752303423488) by (nonlinear_arith)
                requires
                    -536870912 <= xi <= 536870912,
                    -536870912 <= yi <= 536870912,
            ;
        }
        let re = div_floor_one(x * x - y * y);
        let im = div_floor_one(2 * x * y);
        proof {
            lemma_div_one_bounds((x * x - y * y) as int);
            lemma_div_one_bounds((2 * x * y) as int);
        }
        let nx = re + cx;
        let ny = im + cy;
        if is_escaped(nx, ny) {
            return n;
        }
        proof {
            let (xi, yi) = (nx as int, ny as int);
            assert(-536870912 <= xi <= 536870912 && -536870912 <= yi <= 536870912)
                by (nonlinear_arith)
                requires
                    xi * xi + yi * yi <= 288230376151711744,
            ;
        }
        x = nx;
        y = ny;
        n = n + 1;
    }
    n
}

proof fn lemma_div_one_bounds(v: int)
    requires
        -576460752303423488 <= v <= 576460752303423488,
    ensures
        -2147483648 <= v / (ONE as int) <= 2147483648,
{
    vstd::arithmetic::div_mod::lemma_div_is_ordered(-576460752303423488, v, ONE as int);
    vstd::arithmetic::div_mod::lemma_div_is_ordered(v, 576460752303423488, ONE as int);
    assert(-576460752303423488int / 268435456int == -2147483648int);
    assert(576460752303423488int / 268435456int == 2147483648int);
}

} // verus!
