//! Fixed-point scales and small arithmetic helpers.
//!
//! Two scales are used throughout the crate:
//! - "unit" values (alphas, colors, pressures, ratios) carry `UNIT`
//!   fixed-point steps per 1.0;
//! - coordinates and sizes carry `SUB` steps per pixel, so a step is a
//!   256th of a pixel.

use vstd::prelude::*;

verus! {

/// Fixed-point steps per 1.0 for unit-interval quantities.
pub const UNIT: i64 = 65536;

/// Alphas below this are treated as fully transparent (about 0.001).
pub const ALPHA_EPS: i64 = 64;

/// Fixed-point steps per pixel for coordinates and sizes.
pub const SUB: i64 = 256;

/// Raw input coordinates are kept within this many fixed-point steps of
/// the origin (about a quarter-million pixels), so squared distances fit
/// comfortably in `u64`.
pub const MAX_COORD: i64 = 0x400_0000;

/// Interpolated path points may overshoot the raw samples (a Catmull-Rom
/// spline is not bounded by its control points), so they get headroom.
pub const MAX_PATH_COORD: i64 = 0x2000_0000;

/// Floor of the real square root, defined by primitive recursion.
pub open spec fn sqrt_floor(n: nat) -> nat
    decreases n,
{
    if n == 0 {
        0
    } else {
        let r = sqrt_floor((n - 1) as nat);
        if (r + 1) * (r + 1) <= n {
            r + 1
        } else {
            r
        }
    }
}

/// `sqrt_floor(n)` is the unique `r` with `r * r <= n < (r + 1) * (r + 1)`.
pub proof fn lemma_sqrt_floor_bounds(n: nat)
    ensures
        sqrt_floor(n) * sqrt_floor(n) <= n,
        n < (sqrt_floor(n) + 1) * (sqrt_floor(n) + 1),
    decreases n,
{
    if n == 0 {
        assert(sqrt_floor(0) == 0);
        assert(sqrt_floor(n) * sqrt_floor(n) <= n);
        assert(n < (sqrt_floor(n) + 1) * (sqrt_floor(n) + 1)) by (nonlinear_arith)
            requires n == 0nat, sqrt_floor(n) == 0,
        ;
    } else {
        lemma_sqrt_floor_bounds((n - 1) as nat);
        let r = sqrt_floor((n - 1) as nat);
        assert(n - 1 < (r + 1) * (r + 1));
        if (r + 1) * (r + 1) <= n {
            assert(sqrt_floor(n) == r + 1);
            assert((r + 1) * (r + 1) < (r + 2) * (r + 2)) by (nonlinear_arith);
            assert(n < (r + 2) * (r + 2));
            assert(sqrt_floor(n) * sqrt_floor(n) <= n);
            assert(n < (sqrt_floor(n) + 1) * (sqrt_floor(n) + 1));
        } else {
            assert(sqrt_floor(n) == r);
            assert(sqrt_floor(n) * sqrt_floor(n) <= n);
            assert(n < (sqrt_floor(n) + 1) * (sqrt_floor(n) + 1));
        }
    }
}

pub proof fn lemma_sqrt_floor_unique(n: nat, r: nat)
    requires
        r * r <= n,
        n < (r + 1) * (r + 1),
    ensures
        r == sqrt_floor(n),
{
    lemma_sqrt_floor_bounds(n);
    let s = sqrt_floor(n);
    if r < s {
        assert((r + 1) * (r + 1) <= s * s) by (nonlinear_arith)
            requires r + 1 <= s,
        ;
    }
    if s < r {
        assert((s + 1) * (s + 1) <= r * r) by (nonlinear_arith)
            requires s + 1 <= r,
        ;
    }
}

/// The square root floor is monotone.
pub proof fn lemma_sqrt_floor_monotone(a: nat, b: nat)
    requires
        a <= b,
    ensures
        sqrt_floor(a) <= sqrt_floor(b),
{
    lemma_sqrt_floor_bounds(a);
    lemma_sqrt_floor_bounds(b);
    let ra = sqrt_floor(a);
    let rb = sqrt_floor(b);
    if rb < ra {
        assert((rb + 1) * (rb + 1) <= ra * ra) by (nonlinear_arith)
            requires rb + 1 <= ra,
        ;
    }
}

/// `sqrt_floor` of a perfect square is exact.
pub proof fn lemma_sqrt_floor_square(r: nat)
    ensures
        sqrt_floor(r * r) == r,
{
    assert(r * r < (r + 1) * (r + 1)) by (nonlinear_arith);
    lemma_sqrt_floor_unique(r * r, r);
}

/// Integer square root by bisection.
pub fn isqrt(x: u64) -> (r: u64)
    ensures
        r == sqrt_floor(x as nat),
        r * r <= x,
        x < (r + 1) * (r + 1),
        r < 0x1_0000_0000,
{
    let mut lo: u64 = 0;
    let mut hi: u64 = if x < 0xFFFF_FFFF {
        x + 1
    } else {
        0x1_0000_0000
    };
    proof {
        if x < 0xFFFF_FFFF {
            assert(x < hi * hi) by (nonlinear_arith)
                requires x < hi, hi >= 1,
            ;
        } else {
            assert((0x1_0000_0000 as int) * (0x1_0000_0000 as int) == 0x1_0000_0000_0000_0000int)
                by (nonlinear_arith);
        }
    }
    while hi - lo > 1
        invariant
            lo < hi,
            hi <= 0x1_0000_0000,
            lo * lo <= x,
            x < hi * hi,
        decreases hi - lo,
    {
        let mid = lo + (hi - lo) / 2;
        proof {
            assert(mid * mid < hi * hi) by (nonlinear_arith)
                requires mid < hi, hi <= 0x1_0000_0000u64,
            ;
            assert((hi as int) * (hi as int) <= (0x1_0000_0000 as int) * (0x1_0000_0000 as int))
                by (nonlinear_arith)
                requires hi <= 0x1_0000_0000u64,
            ;
            assert((0x1_0000_0000 as int) * (0x1_0000_0000 as int) == 0x1_0000_0000_0000_0000int)
                by (nonlinear_arith);
        }
        if mid * mid <= x {
            lo = mid;
        } else {
            hi = mid;
        }
    }
    proof {
        lemma_sqrt_floor_unique(x as nat, lo as nat);
    }
    lo
}

/// Clamp `v` into `[lo, hi]`.
pub fn clamp64(v: i64, lo: i64, hi: i64) -> (r: i64)
    requires
        lo <= hi,
    ensures
        r == clamp_spec(v as int, lo as int, hi as int),
{
    if v < lo {
        lo
    } else if v > hi {
        hi
    } else {
        v
    }
}

pub open spec fn clamp_spec(v: int, lo: int, hi: int) -> int {
    if v < lo {
        lo
    } else if v > hi {
        hi
    } else {
        v
    }
}

/// Dab radii are kept within this many fixed-point steps (65536 pixels).
pub const MAX_RADIUS: i64 = 0x100_0000;

/// Index of the pixel containing a coordinate: floor of `v / SUB`.
pub open spec fn px_floor_spec(v: int) -> int {
    if v >= 0 {
        v / (SUB as int)
    } else {
        -((-v + SUB - 1) / (SUB as int))
    }
}

/// Ceiling of `v / SUB`.
pub open spec fn px_ceil_spec(v: int) -> int {
    if v >= 0 {
        (v + SUB - 1) / (SUB as int)
    } else {
        -((-v) / (SUB as int))
    }
}

/// `v / SUB` rounded toward zero.
pub open spec fn px_trunc_spec(v: int) -> int {
    if v >= 0 {
        v / (SUB as int)
    } else {
        -((-v) / (SUB as int))
    }
}

pub fn px_floor(v: i64) -> (r: i64)
    requires
        -0x4000_0000 <= v <= 0x4000_0000,
    ensures
        r == px_floor_spec(v as int),
        -0x40_0001 <= r <= 0x40_0000,
{
    proof {
        lemma_px_div_bounds(v as int);
    }
    if v >= 0 {
        v / SUB
    } else {
        -((-v + SUB - 1) / SUB)
    }
}

pub fn px_ceil(v: i64) -> (r: i64)
    requires
        -0x4000_0000 <= v <= 0x4000_0000,
    ensures
        r == px_ceil_spec(v as int),
        -0x40_0001 <= r <= 0x40_0001,
{
    proof {
        lemma_px_div_bounds(v as int);
    }
    if v >= 0 {
        (v + SUB - 1) / SUB
    } else {
        -((-v) / SUB)
    }
}

pub fn px_trunc(v: i64) -> (r: i64)
    requires
        -0x4000_0000 <= v <= 0x4000_0000,
    ensures
        r == px_trunc_spec(v as int),
        -0x40_0001 <= r <= 0x40_0001,
{
    proof {
        lemma_px_div_bounds(v as int);
    }
    if v >= 0 {
        v / SUB
    } else {
        -((-v) / SUB)
    }
}

/// Nonnegative division by `SUB` keeps moderate coordinates moderate.
proof fn lemma_px_div_bounds(v: int)
    requires
        -0x4000_0000 <= v <= 0x4000_0000,
    ensures
        0 <= v ==> 0 <= v / (SUB as int) <= 0x40_0000,
        0 <= v ==> 0 <= (v + SUB - 1) / (SUB as int) <= 0x40_0001,
        v < 0 ==> 0 <= (-v) / (SUB as int) <= 0x40_0000,
        v < 0 ==> 0 <= (-v + SUB - 1) / (SUB as int) <= 0x40_0001,
{
    if 0 <= v {
        vstd::arithmetic::div_mod::lemma_div_pos_is_pos(v, SUB as int);
        vstd::arithmetic::div_mod::lemma_div_is_ordered(v, 0x4000_0000, SUB as int);
        vstd::arithmetic::div_mod::lemma_div_pos_is_pos(v + SUB - 1, SUB as int);
        vstd::arithmetic::div_mod::lemma_div_is_ordered(v + SUB - 1, 0x4000_00FF, SUB as int);
    } else {
        vstd::arithmetic::div_mod::lemma_div_pos_is_pos(-v, SUB as int);
        vstd::arithmetic::div_mod::lemma_div_is_ordered(-v, 0x4000_0000, SUB as int);
        vstd::arithmetic::div_mod::lemma_div_pos_is_pos(-v + SUB - 1, SUB as int);
        vstd::arithmetic::div_mod::lemma_div_is_ordered(-v + SUB - 1, 0x4000_00FF, SUB as int);
    }
}

/// Flooring division of a possibly negative value by a positive one,
/// matching the mathematical `/` of specifications.
pub fn div_floor(v: i64, d: i64) -> (r: i64)
    requires
        0 < d <= 0x1_0000_0000,
        -0x1000_0000_0000_0000 <= v <= 0x1000_0000_0000_0000,
    ensures
        r == (v as int) / (d as int),
{
    if v >= 0 {
        v / d
    } else {
        let m = -v;
        let q2 = (m + d - 1) / d;
        proof {
            vstd::arithmetic::div_mod::lemma_fundamental_div_mod(m + d - 1, d as int);
            vstd::arithmetic::div_mod::lemma_mod_bound(m + d - 1, d as int);
            let r2 = (m + d - 1) % (d as int);
            assert((d as int) * (-(q2 as int)) == -((d as int) * (q2 as int)))
                by (nonlinear_arith);
            assert(v == (d as int) * (-(q2 as int)) + (d - 1 - r2));
            vstd::arithmetic::div_mod::lemma_fundamental_div_mod_converse(
                v as int,
                d as int,
                -(q2 as int),
                d - 1 - r2,
            );
        }
        -q2
    }
}

/// `v * f / UNIT` for a nonnegative length `v` and unit-interval factor
/// `f`: scaling a length down never grows it.
pub fn scale_coord(v: i64, f: i64) -> (r: i64)
    requires
        0 <= v <= 0x1000_0000,
        0 <= f <= UNIT,
    ensures
        r == v * f / (UNIT as int),
        0 <= r <= v,
{
    proof {
        vstd::arithmetic::div_mod::lemma_div_pos_is_pos(v * f, UNIT as int);
        assert(v * f <= v * (UNIT as int) && v * f <= 0x7FFF_FFFF_FFFF_FFFFi64)
            by (nonlinear_arith)
            requires
                0 <= v <= 0x1000_0000i64,
                0 <= f <= 0x1_0000i64,
        ;
        assert(v * (UNIT as int) == (UNIT as int) * v) by (nonlinear_arith);
        vstd::arithmetic::div_mod::lemma_div_is_ordered(v * f, v * (UNIT as int), UNIT as int);
        vstd::arithmetic::div_mod::lemma_div_multiples_vanish(v as int, UNIT as int);
    }
    (((v as u64) * (f as u64)) / (UNIT as u64)) as i64
}

/// `n * UNIT / d` for `0 <= n <= d`: a fraction of the unit interval.
pub fn ratio_of(n: i64, d: i64) -> (r: i64)
    requires
        0 <= n <= d,
        0 < d <= 0x1_0000_0000,
    ensures
        r == n * UNIT / (d as int),
        0 <= r <= UNIT,
        n == 0 ==> r == 0,
        n == d ==> r == UNIT,
{
    proof {
        vstd::arithmetic::div_mod::lemma_div_pos_is_pos(n * UNIT, d as int);
        if n == d {
            assert(n * UNIT == (d as int) * (UNIT as int)) by (nonlinear_arith)
                requires n == d,
            ;
        }
        if n == 0 {
            assert(n * UNIT == 0) by (nonlinear_arith)
                requires n == 0,
            ;
            vstd::arithmetic::div_mod::lemma_div_basics(d as int);
        }
        assert(n * UNIT <= d * (UNIT as int) && n * UNIT <= 0x7FFF_FFFF_FFFF_FFFFi64)
            by (nonlinear_arith)
            requires
                0 <= n <= d,
                d <= 0x1_0000_0000i64,
        ;
        assert(d * (UNIT as int) == (UNIT as int) * d) by (nonlinear_arith);
        vstd::arithmetic::div_mod::lemma_div_is_ordered(n * UNIT, d * (UNIT as int), d as int);
        vstd::arithmetic::div_mod::lemma_div_multiples_vanish(UNIT as int, d as int);
    }
    (((n as u64) * (UNIT as u64)) / (d as u64)) as i64
}

/// Flooring division is superadditive up to one unit:
/// `(a + b) / d` exceeds `a / d + b / d` by at most 1.
pub proof fn lemma_div_superadd(a: int, b: int, d: int)
    requires
        0 <= a,
        0 <= b,
        0 < d,
    ensures
        (a + b) / d <= a / d + b / d + 1,
{
    vstd::arithmetic::div_mod::lemma_fundamental_div_mod(a, d);
    vstd::arithmetic::div_mod::lemma_fundamental_div_mod(b, d);
    vstd::arithmetic::div_mod::lemma_mod_bound(a, d);
    vstd::arithmetic::div_mod::lemma_mod_bound(b, d);
    let qa = a / d;
    let qb = b / d;
    let ra = a % d;
    let rb = b % d;
    assert(d * qa + d * qb == d * (qa + qb)) by (nonlinear_arith);
    if ra + rb < d {
        assert(a + b == d * (qa + qb) + (ra + rb));
        vstd::arithmetic::div_mod::lemma_fundamental_div_mod_converse(
            a + b,
            d,
            qa + qb,
            ra + rb,
        );
    } else {
        assert(d * (qa + qb) + d == d * (qa + qb + 1)) by (nonlinear_arith);
        assert(a + b == d * (qa + qb + 1) + (ra + rb - d));
        vstd::arithmetic::div_mod::lemma_fundamental_div_mod_converse(
            a + b,
            d,
            qa + qb + 1,
            ra + rb - d,
        );
    }
}

/// `a * b / UNIT` for unit-interval operands, with its range facts.
pub fn scale_unit(a: i64, b: i64) -> (r: i64)
    requires
        0 <= a <= UNIT,
        0 <= b <= UNIT,
    ensures
        r == a * b / (UNIT as int),
        0 <= r,
        r <= a,
        r <= b,
        a == UNIT ==> r == b,
        b == UNIT ==> r == a,
{
    proof {
        vstd::arithmetic::div_mod::lemma_div_pos_is_pos(a * b, UNIT as int);
        vstd::arithmetic::mul::lemma_mul_inequality(b as int, UNIT as int, a as int);
        vstd::arithmetic::mul::lemma_mul_inequality(a as int, UNIT as int, b as int);
        assert(a * b == b * a) by (nonlinear_arith);
        vstd::arithmetic::div_mod::lemma_div_is_ordered(a * b, a * (UNIT as int), UNIT as int);
        vstd::arithmetic::div_mod::lemma_div_is_ordered(a * b, b * (UNIT as int), UNIT as int);
        assert(a * (UNIT as int) == (UNIT as int) * a) by (nonlinear_arith);
        assert(b * (UNIT as int) == (UNIT as int) * b) by (nonlinear_arith);
        vstd::arithmetic::div_mod::lemma_div_multiples_vanish(a as int, UNIT as int);
        vstd::arithmetic::div_mod::lemma_div_multiples_vanish(b as int, UNIT as int);
        assert(a * b <= 0x1_0000_0000i64) by (nonlinear_arith)
            requires 0 <= a <= 0x1_0000i64, 0 <= b <= 0x1_0000i64,
        ;
    }
    (((a as u64) * (b as u64)) / (UNIT as u64)) as i64
}

/// `c * UNIT / a` for `0 <= c <= a`: a premultiplied channel taken
/// straight, which always lands in `[0, UNIT]`.
pub fn ratio_unit(c: i64, a: i64) -> (r: i64)
    requires
        0 <= c <= a,
        0 < a <= UNIT,
    ensures
        r == c * UNIT / (a as int),
        0 <= r <= UNIT,
        c == a ==> r == UNIT,
        c == 0 ==> r == 0,
        a == UNIT ==> r == c,
{
    proof {
        vstd::arithmetic::div_mod::lemma_div_pos_is_pos(c * UNIT, a as int);
        vstd::arithmetic::mul::lemma_mul_inequality(c as int, a as int, UNIT as int);
        vstd::arithmetic::div_mod::lemma_div_is_ordered(c * UNIT, a * (UNIT as int), a as int);
        assert(a * (UNIT as int) == (UNIT as int) * a) by (nonlinear_arith);
        vstd::arithmetic::div_mod::lemma_div_multiples_vanish(UNIT as int, a as int);
        assert(c * UNIT <= 0x1_0000_0000_0000i64) by (nonlinear_arith)
            requires 0 <= c <= 0x1_0000i64,
        ;
        if a == UNIT {
            assert(c * UNIT == (UNIT as int) * c) by (nonlinear_arith);
            vstd::arithmetic::div_mod::lemma_div_multiples_vanish(c as int, UNIT as int);
        }
    }
    (((c as u64) * (UNIT as u64)) / (a as u64)) as i64
}

} // verus!
