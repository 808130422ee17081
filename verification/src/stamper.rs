//! The dab emitter: distance-based resampling of raw input into evenly
//! spaced dabs.
//!
//! Raw samples arrive at whatever rate the device produces; the stamper
//! resamples the path (linearly, or with a Catmull-Rom spline once four
//! samples are known), accumulates travelled distance, and emits one dab
//! each time the accumulated distance crosses the spacing threshold.

use vstd::prelude::*;
use crate::fixed::{
    UNIT, SUB, MAX_COORD, MAX_PATH_COORD, MAX_RADIUS, sqrt_floor, isqrt, clamp_spec, clamp64,
    scale_unit, scale_coord, ratio_of, div_floor,
};
use crate::tablet::{RawInputPoint, raw_point_wf, MAX_TILT};

verus! {

/// A quarter turn, a half turn and a full half-circle in unit-scale
/// radians, and the linear-correction weight of the arctangent
/// approximation.
pub const QPI_FX: i64 = 51471;

pub const HALF_PI_FX: i64 = 102943;

pub const PI_FX: i64 = 205887;

pub const ATAN_K: i64 = 17891;

/// One renderable paint deposit.
#[derive(Debug, Clone, Copy)]
pub struct Dab {
    /// Centre position, fixed-point coordinates.
    pub x: i64,
    pub y: i64,
    /// Diameter in fixed-point coordinate steps.
    pub size: i64,
    /// Unit-interval opacity, from flow and pressure.
    pub alpha: i64,
    /// Orientation from the pen tilt, unit-scale radians.
    pub angle: i64,
    /// The pressure that produced this dab.
    pub pressure: i64,
}

/// An interpolated point along the stroke path.
#[derive(Debug, Clone, Copy)]
pub struct PathPoint {
    pub x: i64,
    pub y: i64,
    pub pressure: i64,
    pub tilt_x: i64,
    pub tilt_y: i64,
}

pub open spec fn pp_wf(p: PathPoint) -> bool {
    &&& -MAX_PATH_COORD <= p.x <= MAX_PATH_COORD
    &&& -MAX_PATH_COORD <= p.y <= MAX_PATH_COORD
    &&& 0 <= p.pressure <= UNIT
    &&& -MAX_TILT <= p.tilt_x <= MAX_TILT
    &&& -MAX_TILT <= p.tilt_y <= MAX_TILT
}

pub open spec fn path_point_of(p: RawInputPoint) -> PathPoint {
    PathPoint { x: p.x, y: p.y, pressure: p.pressure, tilt_x: p.tilt_x, tilt_y: p.tilt_y }
}

/// Stamper configuration: sizes in fixed-point coordinate steps,
/// fractions in fixed-point unit steps.
#[derive(Debug, Clone, Copy)]
pub struct StamperConfig {
    /// Base brush diameter.
    pub size: i64,
    /// Dab spacing as a fraction of the size.
    pub spacing: i64,
    /// Per-dab opacity.
    pub flow: i64,
    /// Edge hardness.
    pub hardness: i64,
    /// Whether pressure scales the size.
    pub pressure_size: bool,
    /// Whether pressure scales the alpha.
    pub pressure_alpha: bool,
    /// Size fraction reached at zero pressure.
    pub min_size_ratio: i64,
    /// Alpha fraction reached at zero pressure.
    pub min_alpha_ratio: i64,
}

pub open spec fn config_wf(c: StamperConfig) -> bool {
    &&& 0 <= c.size <= MAX_RADIUS
    &&& 0 <= c.spacing <= 4 * UNIT
    &&& 0 <= c.flow <= UNIT
    &&& 0 <= c.hardness <= UNIT
    &&& 0 <= c.min_size_ratio <= UNIT
    &&& 0 <= c.min_alpha_ratio <= UNIT
}

impl Default for StamperConfig {
    /// A 20-pixel brush with quarter spacing, full flow, a hard edge,
    /// and pressure driving both size and alpha from zero.
    fn default() -> (c: StamperConfig)
        ensures
            c == (StamperConfig {
                size: 5120i64,
                spacing: 16384i64,
                flow: 65536i64,
                hardness: 65536i64,
                pressure_size: true,
                pressure_alpha: true,
                min_size_ratio: 0i64,
                min_alpha_ratio: 0i64,
            }),
            config_wf(c),
    {
        StamperConfig {
            size: 5120,
            spacing: 16384,
            flow: 65536,
            hardness: 65536,
            pressure_size: true,
            pressure_alpha: true,
            min_size_ratio: 0,
            min_alpha_ratio: 0,
        }
    }
}

/// The dab size at a given pressure: interpolated between the minimum
/// size and the full size when pressure drives the size.
pub open spec fn size_spec(c: StamperConfig, pressure: int) -> int {
    if c.pressure_size {
        let mn = c.size * c.min_size_ratio / (UNIT as int);
        mn + (c.size - mn) * pressure / (UNIT as int)
    } else {
        c.size as int
    }
}

/// The dab alpha at a given pressure: interpolated between the minimum
/// alpha and the full flow when pressure drives the alpha.
pub open spec fn alpha_spec(c: StamperConfig, pressure: int) -> int {
    if c.pressure_alpha {
        let mn = c.flow * c.min_alpha_ratio / (UNIT as int);
        mn + (c.flow - mn) * pressure / (UNIT as int)
    } else {
        c.flow as int
    }
}

/// The arctangent of `n / d` for `0 <= n <= d`, in unit-scale radians:
/// a linear term plus a quadratic correction, exact at 0 and at the
/// quarter turn.
pub open spec fn atan_ratio_spec(n: int, d: int) -> int {
    let z = n * UNIT / d;
    QPI_FX * z / (UNIT as int) + (ATAN_K * z / (UNIT as int)) * (UNIT - z) / (UNIT as int)
}

/// The angle of the vector (x, y) in unit-scale radians, by octant
/// reduction of the arctangent approximation; zero for the zero vector.
pub open spec fn atan2_spec(y: int, x: int) -> int {
    if y == 0 && x == 0 {
        0
    } else {
        let ay = if y >= 0 { y } else { -y };
        let ax = if x >= 0 { x } else { -x };
        let base = if ax >= ay {
            atan_ratio_spec(ay, ax)
        } else {
            HALF_PI_FX - atan_ratio_spec(ax, ay)
        };
        let mag = if x >= 0 { base } else { PI_FX - base };
        if y >= 0 { mag } else { -mag }
    }
}

/// The dab a path point produces under a configuration.
pub open spec fn dab_spec(c: StamperConfig, p: PathPoint) -> Dab {
    Dab {
        x: p.x,
        y: p.y,
        size: size_spec(c, p.pressure as int) as i64,
        alpha: alpha_spec(c, p.pressure as int) as i64,
        angle: atan2_spec(p.tilt_y as int, p.tilt_x as int) as i64,
        pressure: p.pressure,
    }
}

/// `atan_ratio_spec` as executable code.
fn atan_ratio(n: i64, d: i64) -> (r: i64)
    requires
        0 <= n <= d,
        0 < d <= 0x1000_0000,
    ensures
        r == atan_ratio_spec(n as int, d as int),
        0 <= r <= QPI_FX + ATAN_K,
        n == 0 ==> r == 0,
        n == d ==> r == QPI_FX,
{
    let z = ratio_of(n, d);
    let t1 = scale_unit(QPI_FX, z);
    let a = scale_unit(ATAN_K, z);
    let t2 = scale_unit(a, UNIT - z);
    t1 + t2
}

/// `atan2_spec` as executable code.
fn atan2_fixed(y: i64, x: i64) -> (r: i64)
    requires
        -0x1000_0000 <= y <= 0x1000_0000,
        -0x1000_0000 <= x <= 0x1000_0000,
    ensures
        r == atan2_spec(y as int, x as int),
        -PI_FX <= r <= PI_FX,
        y == 0 && x >= 0 ==> r == 0,
        y == 0 && x < 0 ==> r == PI_FX,
        x == 0 && y > 0 ==> r == HALF_PI_FX,
        x == 0 && y < 0 ==> r == -HALF_PI_FX,
{
    if y == 0 && x == 0 {
        return 0;
    }
    let ay = if y >= 0 { y } else { -y };
    let ax = if x >= 0 { x } else { -x };
    let base = if ax >= ay {
        atan_ratio(ay, ax)
    } else {
        HALF_PI_FX - atan_ratio(ax, ay)
    };
    let mag = if x >= 0 { base } else { PI_FX - base };
    if y >= 0 { mag } else { -mag }
}

/// Linear interpolation of one fixed-point component, floored toward
/// the starting value.
pub open spec fn lerp_i(a: int, b: int, t: int) -> int {
    if b >= a {
        a + (b - a) * t / (UNIT as int)
    } else {
        a - (a - b) * t / (UNIT as int)
    }
}

/// Linear interpolation between two path points at parameter `t` of the
/// unit interval.
pub open spec fn lerp_pp(a: PathPoint, b: PathPoint, t: int) -> PathPoint {
    PathPoint {
        x: lerp_i(a.x as int, b.x as int, t) as i64,
        y: lerp_i(a.y as int, b.y as int, t) as i64,
        pressure: lerp_i(a.pressure as int, b.pressure as int, t) as i64,
        tilt_x: lerp_i(a.tilt_x as int, b.tilt_x as int, t) as i64,
        tilt_y: lerp_i(a.tilt_y as int, b.tilt_y as int, t) as i64,
    }
}

/// Euclidean distance between two path points, in fixed-point steps.
pub open spec fn dist_pp(a: PathPoint, b: PathPoint) -> int {
    let dx = b.x - a.x;
    let dy = b.y - a.y;
    sqrt_floor((dx * dx + dy * dy) as nat) as int
}

/// The resampling step: half the dab spacing, floored at one
/// fixed-point step.
pub open spec fn step_spec(c: StamperConfig) -> int {
    let s = c.size * c.spacing / (UNIT as int) / 2;
    if s < 1 {
        1
    } else {
        s
    }
}

/// The dynamic spacing threshold at a given pressure, floored at one
/// pixel.
pub open spec fn threshold_spec(c: StamperConfig, pressure: int) -> int {
    let t = size_spec(c, pressure) * c.spacing / (UNIT as int);
    if t < SUB {
        SUB as int
    } else {
        t
    }
}

/// The segment from `p0` to `p1` resampled at the given step: the
/// points at `k / steps` for `k = 1 ..= steps`, or just `p1` when the
/// segment is shorter than one step.
pub open spec fn linear_path_spec(p0: PathPoint, p1: PathPoint, step: int) -> Seq<PathPoint> {
    let d = dist_pp(p0, p1);
    if d < step {
        seq![p1]
    } else {
        let steps = (d + step - 1) / step;
        Seq::new(steps as nat, |k: int| lerp_pp(p0, p1, (k + 1) * UNIT / steps))
    }
}

/// One weighted Catmull-Rom combination, scaled back to the value
/// range.
pub open spec fn cr_combine(c0: int, c1: int, c2: int, c3: int, b0: int, b1: int, b2: int, b3: int) -> int {
    (b0 * c0 + b1 * c1 + b2 * c2 + b3 * c3) / (UNIT as int)
}

/// A point of the Catmull-Rom spline through four samples, at parameter
/// `t` of the segment between the middle two. Positions, pressure and
/// tilts are clamped back into their valid ranges, since the spline may
/// overshoot its control points.
pub open spec fn catmull_point_spec(
    p0: PathPoint,
    p1: PathPoint,
    p2: PathPoint,
    p3: PathPoint,
    t: int,
) -> PathPoint {
    let t2 = t * t / (UNIT as int);
    let t3 = t2 * t / (UNIT as int);
    let b0 = (2 * t2 - t3 - t) / 2;
    let b1 = (3 * t3 - 5 * t2 + 2 * UNIT) / 2;
    let b2 = (4 * t2 + t - 3 * t3) / 2;
    let b3 = (t3 - t2) / 2;
    PathPoint {
        x: clamp_spec(
            cr_combine(p0.x as int, p1.x as int, p2.x as int, p3.x as int, b0, b1, b2, b3),
            -MAX_PATH_COORD as int,
            MAX_PATH_COORD as int,
        ) as i64,
        y: clamp_spec(
            cr_combine(p0.y as int, p1.y as int, p2.y as int, p3.y as int, b0, b1, b2, b3),
            -MAX_PATH_COORD as int,
            MAX_PATH_COORD as int,
        ) as i64,
        pressure: clamp_spec(
            cr_combine(
                p0.pressure as int,
                p1.pressure as int,
                p2.pressure as int,
                p3.pressure as int,
                b0,
                b1,
                b2,
                b3,
            ),
            0,
            UNIT as int,
        ) as i64,
        tilt_x: clamp_spec(
            cr_combine(
                p0.tilt_x as int,
                p1.tilt_x as int,
                p2.tilt_x as int,
                p3.tilt_x as int,
                b0,
                b1,
                b2,
                b3,
            ),
            -MAX_TILT as int,
            MAX_TILT as int,
        ) as i64,
        tilt_y: clamp_spec(
            cr_combine(
                p0.tilt_y as int,
                p1.tilt_y as int,
                p2.tilt_y as int,
                p3.tilt_y as int,
                b0,
                b1,
                b2,
                b3,
            ),
            -MAX_TILT as int,
            MAX_TILT as int,
        ) as i64,
    }
}

/// The middle segment of four samples resampled along the Catmull-Rom
/// spline, or just its endpoint when the segment is shorter than one
/// step.
pub open spec fn catmull_path_spec(
    p0: PathPoint,
    p1: PathPoint,
    p2: PathPoint,
    p3: PathPoint,
    step: int,
) -> Seq<PathPoint> {
    let d = dist_pp(p1, p2);
    if d < step {
        seq![p2]
    } else {
        let steps = (d + step - 1) / step;
        Seq::new(steps as nat, |k: int| catmull_point_spec(p0, p1, p2, p3, (k + 1) * UNIT / steps))
    }
}

/// How a sample history is resampled: linearly while fewer than four
/// samples are known, along the Catmull-Rom spline afterwards.
pub open spec fn interpolate_spec(c: StamperConfig, hist: Seq<PathPoint>) -> Seq<PathPoint> {
    let n = hist.len() as int;
    if n < 2 {
        hist
    } else if n < 4 {
        linear_path_spec(hist[n - 2], hist[n - 1], step_spec(c))
    } else {
        catmull_path_spec(hist[n - 4], hist[n - 3], hist[n - 2], hist[n - 1], step_spec(c))
    }
}

/// One component of linear interpolation, staying between its
/// endpoints.
fn lerp_exec_i(a: i64, b: i64, t: i64) -> (r: i64)
    requires
        -0x2000_0000 <= a <= 0x2000_0000,
        -0x2000_0000 <= b <= 0x2000_0000,
        0 <= t <= UNIT,
    ensures
        r == lerp_i(a as int, b as int, t as int),
        a <= b ==> a <= r <= b,
        b <= a ==> b <= r <= a,
{
    if b >= a {
        let d = b - a;
        proof {
            lemma_scaled_le_coord(d as int, t as int);
        }
        a + (((d as u64) * (t as u64)) / (UNIT as u64)) as i64
    } else {
        let d = a - b;
        proof {
            lemma_scaled_le_coord(d as int, t as int);
        }
        a - (((d as u64) * (t as u64)) / (UNIT as u64)) as i64
    }
}

/// A nonnegative span scaled by a unit fraction stays within the span.
proof fn lemma_scaled_le_coord(d: int, t: int)
    requires
        0 <= d <= 0x4000_0000,
        0 <= t <= UNIT,
    ensures
        0 <= d * t / (UNIT as int) <= d,
        d * t <= 0x7FFF_FFFF_FFFF_FFFF,
{
    vstd::arithmetic::div_mod::lemma_div_pos_is_pos(d * t, UNIT as int);
    assert(d * t <= d * (UNIT as int) && d * t <= 0x7FFF_FFFF_FFFF_FFFF) by (nonlinear_arith)
        requires
            0 <= d <= 0x4000_0000,
            0 <= t <= 0x1_0000i64,
    ;
    assert(d * (UNIT as int) == (UNIT as int) * d) by (nonlinear_arith);
    vstd::arithmetic::div_mod::lemma_div_is_ordered(d * t, d * (UNIT as int), UNIT as int);
    vstd::arithmetic::div_mod::lemma_div_multiples_vanish(d, UNIT as int);
}

/// Linear interpolation of whole path points.
fn lerp_pp_exec(a: &PathPoint, b: &PathPoint, t: i64) -> (r: PathPoint)
    requires
        pp_wf(*a),
        pp_wf(*b),
        0 <= t <= UNIT,
    ensures
        r == lerp_pp(*a, *b, t as int),
        pp_wf(r),
{
    PathPoint {
        x: lerp_exec_i(a.x, b.x, t),
        y: lerp_exec_i(a.y, b.y, t),
        pressure: lerp_exec_i(a.pressure, b.pressure, t),
        tilt_x: lerp_exec_i(a.tilt_x, b.tilt_x, t),
        tilt_y: lerp_exec_i(a.tilt_y, b.tilt_y, t),
    }
}

/// Euclidean distance between two path points.
fn dist_pp_exec(a: &PathPoint, b: &PathPoint) -> (r: i64)
    requires
        pp_wf(*a),
        pp_wf(*b),
    ensures
        r == dist_pp(*a, *b),
        0 <= r <= 0x1_0000_0000,
{
    let dx = b.x - a.x;
    let dy = b.y - a.y;
    proof {
        assert(dx * dx <= 0x1000_0000_0000_0000i64 && dy * dy <= 0x1000_0000_0000_0000i64
            && dx * dx >= 0 && dy * dy >= 0) by (nonlinear_arith)
            requires
                -0x4000_0000 <= dx <= 0x4000_0000,
                -0x4000_0000 <= dy <= 0x4000_0000,
        ;
    }
    let dsq = dx * dx + dy * dy;
    isqrt(dsq as u64) as i64
}

/// A parameter `(k + 1) / steps` of the unit interval.
fn frac_of(k: u64, steps: i64) -> (t: i64)
    requires
        0 < steps <= 0x2_0000_0000,
        k < steps,
    ensures
        t == (k + 1) * UNIT / (steps as int),
        0 <= t <= UNIT,
{
    proof {
        vstd::arithmetic::div_mod::lemma_div_pos_is_pos((k + 1) * UNIT, steps as int);
        assert((k + 1) * UNIT <= steps * (UNIT as int) && (k + 1) * UNIT
            <= 0x7FFF_FFFF_FFFF_FFFF) by (nonlinear_arith)
            requires
                0 <= k < steps <= 0x2_0000_0000i64,
        ;
        assert(steps * (UNIT as int) == (UNIT as int) * steps) by (nonlinear_arith);
        vstd::arithmetic::div_mod::lemma_div_is_ordered(
            (k + 1) * UNIT,
            steps * (UNIT as int),
            steps as int,
        );
        vstd::arithmetic::div_mod::lemma_div_multiples_vanish(UNIT as int, steps as int);
    }
    (((k + 1) * (UNIT as u64)) / (steps as u64)) as i64
}

/// A point of the Catmull-Rom spline, as executable code.
fn catmull_point_exec(
    p0: &PathPoint,
    p1: &PathPoint,
    p2: &PathPoint,
    p3: &PathPoint,
    t: i64,
) -> (r: PathPoint)
    requires
        pp_wf(*p0),
        pp_wf(*p1),
        pp_wf(*p2),
        pp_wf(*p3),
        0 <= t <= UNIT,
    ensures
        r == catmull_point_spec(*p0, *p1, *p2, *p3, t as int),
        pp_wf(r),
{
    let t2 = scale_unit(t, t);
    let t3 = scale_unit(t2, t);
    let b0 = div_floor(2 * t2 - t3 - t, 2);
    let b1 = div_floor(3 * t3 - 5 * t2 + 2 * UNIT, 2);
    let b2 = div_floor(4 * t2 + t - 3 * t3, 2);
    let b3 = div_floor(t3 - t2, 2);
    let x = cr_combine_exec(p0.x, p1.x, p2.x, p3.x, b0, b1, b2, b3);
    let y = cr_combine_exec(p0.y, p1.y, p2.y, p3.y, b0, b1, b2, b3);
    let pr = cr_combine_exec(p0.pressure, p1.pressure, p2.pressure, p3.pressure, b0, b1, b2, b3);
    let tx = cr_combine_exec(p0.tilt_x, p1.tilt_x, p2.tilt_x, p3.tilt_x, b0, b1, b2, b3);
    let ty = cr_combine_exec(p0.tilt_y, p1.tilt_y, p2.tilt_y, p3.tilt_y, b0, b1, b2, b3);
    PathPoint {
        x: clamp64(x, -MAX_PATH_COORD, MAX_PATH_COORD),
        y: clamp64(y, -MAX_PATH_COORD, MAX_PATH_COORD),
        pressure: clamp64(pr, 0, UNIT),
        tilt_x: clamp64(tx, -MAX_TILT, MAX_TILT),
        tilt_y: clamp64(ty, -MAX_TILT, MAX_TILT),
    }
}

/// `cr_combine` as executable code.
fn cr_combine_exec(c0: i64, c1: i64, c2: i64, c3: i64, b0: i64, b1: i64, b2: i64, b3: i64) -> (r:
    i64)
    requires
        -0x2000_0000 <= c0 <= 0x2000_0000,
        -0x2000_0000 <= c1 <= 0x2000_0000,
        -0x2000_0000 <= c2 <= 0x2000_0000,
        -0x2000_0000 <= c3 <= 0x2000_0000,
        -0x4_0000 <= b0 <= 0x4_0000,
        -0x4_0000 <= b1 <= 0x4_0000,
        -0x4_0000 <= b2 <= 0x4_0000,
        -0x4_0000 <= b3 <= 0x4_0000,
    ensures
        r == cr_combine(c0 as int, c1 as int, c2 as int, c3 as int, b0 as int, b1 as int, b2 as int, b3 as int),
{
    proof {
        assert(-0x8_0000_0000_0000i64 <= b0 * c0 <= 0x8_0000_0000_0000i64
            && -0x8_0000_0000_0000i64 <= b1 * c1 <= 0x8_0000_0000_0000i64
            && -0x8_0000_0000_0000i64 <= b2 * c2 <= 0x8_0000_0000_0000i64
            && -0x8_0000_0000_0000i64 <= b3 * c3 <= 0x8_0000_0000_0000i64) by (nonlinear_arith)
            requires
                -0x2000_0000 <= c0 <= 0x2000_0000,
                -0x2000_0000 <= c1 <= 0x2000_0000,
                -0x2000_0000 <= c2 <= 0x2000_0000,
                -0x2000_0000 <= c3 <= 0x2000_0000,
                -0x4_0000 <= b0 <= 0x4_0000,
                -0x4_0000 <= b1 <= 0x4_0000,
                -0x4_0000 <= b2 <= 0x4_0000,
                -0x4_0000 <= b3 <= 0x4_0000,
        ;
    }
    div_floor(b0 * c0 + b1 * c1 + b2 * c2 + b3 * c3, UNIT)
}

/// The lerp parameter of a dab placed when the accumulator overshoots
/// the threshold: back-interpolated along the segment, clamped into the
/// unit interval.
pub open spec fn emit_t(overshoot: int, d: int) -> int {
    if d > 0 {
        let q = overshoot * UNIT / d;
        if q < UNIT {
            UNIT - q
        } else {
            0
        }
    } else {
        UNIT as int
    }
}

/// The dabs emitted while the accumulated distance still reaches the
/// threshold, each placed by back-interpolation between the last stamp
/// point and the current path point; returns the dabs and the remaining
/// accumulated distance.
pub open spec fn emit_while_spec(
    c: StamperConfig,
    l: PathPoint,
    q: PathPoint,
    acc: int,
    th: int,
    d: int,
) -> (Seq<Dab>, int)
    decreases acc when th >= 1
{
    if th < 1 || acc < th {
        (Seq::<Dab>::empty(), acc)
    } else {
        let t = emit_t(acc - th, d);
        let dp = lerp_pp(l, q, t);
        let (rest, accf) = emit_while_spec(c, l, q, acc - th, th, d);
        (seq![dab_spec(c, dp)] + rest, accf)
    }
}

/// Walking the resampled path points in order: each one adds its
/// distance from the last stamp point to the accumulator and emits the
/// dabs that fit; the path point then becomes the last stamp point.
pub open spec fn emit_pts_spec(
    c: StamperConfig,
    acc: int,
    last: Option<PathPoint>,
    pts: Seq<PathPoint>,
) -> (int, Option<PathPoint>, Seq<Dab>)
    decreases pts.len(),
{
    if pts.len() == 0 {
        (acc, last, Seq::<Dab>::empty())
    } else {
        let q = pts[0];
        match last {
            Option::None => emit_pts_spec(c, acc, Some(q), pts.drop_first()),
            Option::Some(l) => {
                let d = dist_pp(l, q);
                let th = threshold_spec(c, q.pressure as int);
                let (em, acc2) = emit_while_spec(c, l, q, acc + d, th, d);
                let (accf, lastf, rest) = emit_pts_spec(c, acc2, Some(q), pts.drop_first());
                (accf, lastf, em + rest)
            },
        }
    }
}

pub open spec fn abs_i(v: int) -> int {
    if v >= 0 {
        v
    } else {
        -v
    }
}

/// The taxicab distance between two path points.
pub open spec fn taxi_pp(a: PathPoint, b: PathPoint) -> int {
    abs_i(b.x - a.x) + abs_i(b.y - a.y)
}

/// The Euclidean distance never exceeds the taxicab distance.
proof fn lemma_dist_le_taxi(a: PathPoint, b: PathPoint)
    ensures
        0 <= dist_pp(a, b) <= taxi_pp(a, b),
{
    let dx = b.x - a.x;
    let dy = b.y - a.y;
    let s = abs_i(dx) + abs_i(dy);
    assert(abs_i(dx) * abs_i(dx) == dx * dx) by (nonlinear_arith);
    assert(abs_i(dy) * abs_i(dy) == dy * dy) by (nonlinear_arith);
    assert(dx * dx + dy * dy >= 0 && dx * dx + dy * dy <= s * s) by (nonlinear_arith)
        requires s == abs_i(dx) + abs_i(dy), s >= abs_i(dx) >= 0, s >= abs_i(dy) >= 0,
            abs_i(dx) * abs_i(dx) == dx * dx, abs_i(dy) * abs_i(dy) == dy * dy,
    ;
    crate::fixed::lemma_sqrt_floor_monotone((dx * dx + dy * dy) as nat, (s * s) as nat);
    crate::fixed::lemma_sqrt_floor_square(s as nat);
}

/// The Euclidean distance is at least each axis distance.
proof fn lemma_dist_ge_axis(a: PathPoint, b: PathPoint)
    ensures
        dist_pp(a, b) >= abs_i(b.x - a.x),
        dist_pp(a, b) >= abs_i(b.y - a.y),
{
    let dx = b.x - a.x;
    let dy = b.y - a.y;
    assert(abs_i(dx) * abs_i(dx) == dx * dx && abs_i(dy) * abs_i(dy) == dy * dy && dx * dx >= 0
        && dy * dy >= 0) by (nonlinear_arith);
    crate::fixed::lemma_sqrt_floor_monotone((dx * dx) as nat, (dx * dx + dy * dy) as nat);
    crate::fixed::lemma_sqrt_floor_monotone((dy * dy) as nat, (dx * dx + dy * dy) as nat);
    crate::fixed::lemma_sqrt_floor_square(abs_i(dx) as nat);
    crate::fixed::lemma_sqrt_floor_square(abs_i(dy) as nat);
}

/// The interpolated component lies between its endpoints.
proof fn lemma_lerp_i_bounds(a: int, b: int, t: int)
    requires
        0 <= t <= UNIT,
    ensures
        a <= b ==> a <= lerp_i(a, b, t) <= b,
        b <= a ==> b <= lerp_i(a, b, t) <= a,
{
    if b >= a {
        lemma_scaled_le_any(b - a, t);
    } else {
        lemma_scaled_le_any(a - b, t);
    }
}

/// A nonnegative span scaled by a unit fraction stays within the span
/// (spec-level, without magnitude caps).
proof fn lemma_scaled_le_any(d: int, t: int)
    requires
        0 <= d,
        0 <= t <= UNIT,
    ensures
        0 <= d * t / (UNIT as int) <= d,
{
    vstd::arithmetic::div_mod::lemma_div_pos_is_pos(d * t, UNIT as int);
    assert(d * t <= d * (UNIT as int)) by (nonlinear_arith)
        requires 0 <= d, 0 <= t <= UNIT as int,
    ;
    assert(d * (UNIT as int) == (UNIT as int) * d) by (nonlinear_arith);
    vstd::arithmetic::div_mod::lemma_div_is_ordered(d * t, d * (UNIT as int), UNIT as int);
    vstd::arithmetic::div_mod::lemma_div_multiples_vanish(d, UNIT as int);
}

/// Interpolation is monotone in the parameter.
proof fn lemma_lerp_i_monotone(a: int, b: int, t1: int, t2: int)
    requires
        0 <= t1 <= t2 <= UNIT,
    ensures
        a <= b ==> lerp_i(a, b, t1) <= lerp_i(a, b, t2),
        b <= a ==> lerp_i(a, b, t2) <= lerp_i(a, b, t1),
{
    if a == b {
        assert((b - a) * t1 == 0 && (b - a) * t2 == 0) by (nonlinear_arith)
            requires b - a == 0,
        ;
        vstd::arithmetic::div_mod::lemma_div_basics(UNIT as int);
    } else if b > a {
        assert((b - a) * t1 <= (b - a) * t2) by (nonlinear_arith)
            requires 0 <= b - a, t1 <= t2,
        ;
        vstd::arithmetic::div_mod::lemma_div_is_ordered((b - a) * t1, (b - a) * t2, UNIT as int);
    } else {
        assert((a - b) * t1 <= (a - b) * t2) by (nonlinear_arith)
            requires 0 <= a - b, t1 <= t2,
        ;
        vstd::arithmetic::div_mod::lemma_div_is_ordered((a - b) * t1, (a - b) * t2, UNIT as int);
    }
}

/// Interpolating all the way reaches the far endpoint exactly.
proof fn lemma_lerp_i_at_unit(a: int, b: int)
    ensures
        lerp_i(a, b, UNIT as int) == b,
{
    if b >= a {
        assert((b - a) * (UNIT as int) == (UNIT as int) * (b - a)) by (nonlinear_arith);
        vstd::arithmetic::div_mod::lemma_div_multiples_vanish(b - a, UNIT as int);
    } else {
        assert((a - b) * (UNIT as int) == (UNIT as int) * (a - b)) by (nonlinear_arith);
        vstd::arithmetic::div_mod::lemma_div_multiples_vanish(a - b, UNIT as int);
    }
}

/// With pressure-driven sizing off, the spacing threshold is the same
/// at every pressure: the spacing fraction of the full size, floored at
/// one pixel.
pub open spec fn flat_threshold(c: StamperConfig) -> int {
    let t = c.size * c.spacing / (UNIT as int);
    if t < SUB {
        SUB as int
    } else {
        t
    }
}

proof fn lemma_flat_threshold(c: StamperConfig, pressure: int)
    requires
        !c.pressure_size,
    ensures
        threshold_spec(c, pressure) == flat_threshold(c),
{
}

/// The dabs emitted at one path point: exactly one per full threshold
/// in the accumulator, which keeps the remainder.
proof fn lemma_emit_while_count(c: StamperConfig, l: PathPoint, q: PathPoint, acc: int, th: int, d: int)
    requires
        1 <= th,
        0 <= acc,
    ensures
        ({
            let (ds, af) = emit_while_spec(c, l, q, acc, th, d);
            &&& th * ds.len() + af == acc
            &&& 0 <= af < th
        }),
    decreases acc,
{
    let (ds, af) = emit_while_spec(c, l, q, acc, th, d);
    if acc < th {
        assert(th * ds.len() == 0) by (nonlinear_arith)
            requires ds.len() == 0,
        ;
    } else {
        lemma_emit_while_count(c, l, q, acc - th, th, d);
        let (rest, af2) = emit_while_spec(c, l, q, acc - th, th, d);
        assert(ds.len() == rest.len() + 1);
        assert(th * ds.len() == th * rest.len() + th) by (nonlinear_arith)
            requires ds.len() == rest.len() + 1,
        ;
    }
}

proof fn lemma_lerp_i_at_zero(a: int, b: int)
    ensures
        lerp_i(a, b, 0) == a,
{
    assert((b - a) * 0 == 0 && (a - b) * 0 == 0) by (nonlinear_arith);
    vstd::arithmetic::div_mod::lemma_div_basics(UNIT as int);
}

proof fn lemma_lerp_pp_at_zero(a: PathPoint, b: PathPoint)
    ensures
        lerp_pp(a, b, 0) == a,
{
    lemma_lerp_i_at_zero(a.x as int, b.x as int);
    lemma_lerp_i_at_zero(a.y as int, b.y as int);
    lemma_lerp_i_at_zero(a.pressure as int, b.pressure as int);
    lemma_lerp_i_at_zero(a.tilt_x as int, b.tilt_x as int);
    lemma_lerp_i_at_zero(a.tilt_y as int, b.tilt_y as int);
}

proof fn lemma_lerp_pp_at_unit(a: PathPoint, b: PathPoint)
    ensures
        lerp_pp(a, b, UNIT as int) == b,
{
    lemma_lerp_i_at_unit(a.x as int, b.x as int);
    lemma_lerp_i_at_unit(a.y as int, b.y as int);
    lemma_lerp_i_at_unit(a.pressure as int, b.pressure as int);
    lemma_lerp_i_at_unit(a.tilt_x as int, b.tilt_x as int);
    lemma_lerp_i_at_unit(a.tilt_y as int, b.tilt_y as int);
}

/// Along one axis, consecutive interpolated values chain up exactly:
/// the detour over the later value costs nothing.
proof fn lemma_axis_chain(a: int, b: int, t1: int, t2: int)
    requires
        0 <= t1 <= t2 <= UNIT,
    ensures
        abs_i(lerp_i(a, b, t2) - lerp_i(a, b, t1)) + abs_i(b - lerp_i(a, b, t2)) == abs_i(
            b - lerp_i(a, b, t1),
        ),
{
    lemma_lerp_i_bounds(a, b, t1);
    lemma_lerp_i_bounds(a, b, t2);
    lemma_lerp_i_monotone(a, b, t1, t2);
}

/// The fraction `j / steps` of the unit interval, monotone in `j`.
proof fn lemma_frac_bounds(j1: int, j2: int, steps: int)
    requires
        1 <= steps,
        0 <= j1 <= j2 <= steps,
    ensures
        0 <= j1 * UNIT / steps <= j2 * UNIT / steps <= UNIT,
{
    vstd::arithmetic::div_mod::lemma_div_pos_is_pos(j1 * UNIT, steps);
    vstd::arithmetic::div_mod::lemma_div_is_ordered(j1 * UNIT, j2 * UNIT, steps);
    vstd::arithmetic::div_mod::lemma_div_is_ordered(j2 * UNIT, steps * UNIT, steps);
    assert(steps * UNIT == steps * (UNIT as int)) by (nonlinear_arith);
    vstd::arithmetic::div_mod::lemma_div_multiples_vanish(UNIT as int, steps);
}

/// Walking the resampled segment from parameter `j / steps` onward with
/// a flat threshold: every threshold-crossing of the accumulated
/// distance emits exactly one dab, and the total distance walked sits
/// between the straight-line axis span and the taxicab span.
proof fn lemma_emit_lerp_path(
    c: StamperConfig,
    a: PathPoint,
    b: PathPoint,
    steps: int,
    j: int,
    acc: int,
    pts: Seq<PathPoint>,
)
    requires
        !c.pressure_size,
        1 <= steps,
        0 <= j <= steps,
        0 <= acc,
        1 <= flat_threshold(c),
        pts.len() == steps - j,
        forall|k: int|
            0 <= k < pts.len() ==> #[trigger] pts[k] == lerp_pp(a, b, (k + j + 1) * UNIT / steps),
    ensures
        ({
            let th = flat_threshold(c);
            let lastj = lerp_pp(a, b, j * UNIT / steps);
            let (af, lf, ds) = emit_pts_spec(c, acc, Some(lastj), pts);
            &&& 0 <= af
            &&& j < steps ==> af < th
            &&& j == steps ==> af == acc && ds.len() == 0
            &&& th * ds.len() + af <= acc + taxi_pp(lastj, b)
            &&& th * ds.len() + af >= acc + abs_i(b.x - lastj.x)
            &&& th * ds.len() + af >= acc + abs_i(b.y - lastj.y)
        }),
    decreases steps - j,
{
    let th = flat_threshold(c);
    let lastj = lerp_pp(a, b, j * UNIT / steps);
    lemma_frac_bounds(j, j, steps);
    if j == steps {
        assert(steps * UNIT == steps * (UNIT as int)) by (nonlinear_arith);
        vstd::arithmetic::div_mod::lemma_div_multiples_vanish(UNIT as int, steps);
        assert(j * UNIT / steps == UNIT);
        lemma_lerp_pp_at_unit(a, b);
        assert(lastj == b);
        assert(pts.len() == 0);
        let (af, lf, ds) = emit_pts_spec(c, acc, Some(lastj), pts);
        assert(th * ds.len() == 0) by (nonlinear_arith)
            requires ds.len() == 0,
        ;
    } else {
        lemma_frac_bounds(j, j + 1, steps);
        let q = lerp_pp(a, b, (j + 1) * UNIT / steps);
        assert(pts[0] == q);
        let d = dist_pp(lastj, q);
        lemma_flat_threshold(c, q.pressure as int);
        lemma_dist_le_taxi(lastj, q);
        lemma_dist_ge_axis(lastj, q);
        let (em, acc2) = emit_while_spec(c, lastj, q, acc + d, th, d);
        lemma_emit_while_count(c, lastj, q, acc + d, th, d);
        let pts_next = pts.drop_first();
        assert(pts_next.len() == steps - (j + 1));
        assert forall|k: int| 0 <= k < pts_next.len() implies #[trigger] pts_next[k] == lerp_pp(
            a,
            b,
            (k + (j + 1) + 1) * UNIT / steps,
        ) by {
            assert(pts_next[k] == pts[k + 1]);
        };
        lemma_emit_lerp_path(c, a, b, steps, j + 1, acc2, pts_next);
        let (af, lf, rest) = emit_pts_spec(c, acc2, Some(q), pts_next);
        let (af0, lf0, ds0) = emit_pts_spec(c, acc, Some(lastj), pts);
        assert(ds0 == em + rest);
        assert(af0 == af);
        assert(ds0.len() == em.len() + rest.len());
        assert(th * ds0.len() == th * em.len() + th * rest.len()) by (nonlinear_arith)
            requires ds0.len() == em.len() + rest.len(),
        ;
        let t1 = j * UNIT / steps;
        let t2 = (j + 1) * UNIT / steps;
        lemma_lerp_i_bounds(a.x as int, b.x as int, t1);
        lemma_lerp_i_bounds(a.x as int, b.x as int, t2);
        lemma_lerp_i_bounds(a.y as int, b.y as int, t1);
        lemma_lerp_i_bounds(a.y as int, b.y as int, t2);
        assert(lastj.x as int == lerp_i(a.x as int, b.x as int, t1));
        assert(q.x as int == lerp_i(a.x as int, b.x as int, t2));
        assert(lastj.y as int == lerp_i(a.y as int, b.y as int, t1));
        assert(q.y as int == lerp_i(a.y as int, b.y as int, t2));
        lemma_axis_chain(a.x as int, b.x as int, t1, t2);
        lemma_axis_chain(a.y as int, b.y as int, t1, t2);
        assert(abs_i(q.x - lastj.x) + abs_i(b.x - q.x) == abs_i(b.x - lastj.x));
        assert(taxi_pp(lastj, q) + taxi_pp(q, b) == taxi_pp(lastj, b));
        assert(th * em.len() + acc2 == acc + d);
        assert(th * rest.len() + af <= acc2 + taxi_pp(q, b));
        assert(th * rest.len() + af >= acc2 + abs_i(b.x - q.x));
        assert(th * rest.len() + af >= acc2 + abs_i(b.y - q.y));
        assert(th * ds0.len() + af0 <= acc + taxi_pp(lastj, b));
        assert(th * ds0.len() + af0 >= acc + abs_i(b.x - lastj.x));
        assert(abs_i(q.y - lastj.y) + abs_i(b.y - q.y) == abs_i(b.y - lastj.y));
        assert(th * ds0.len() + af0 >= acc + abs_i(b.y - lastj.y));
        if j + 1 == steps {
            assert(af == acc2);
        }
        assert(af0 < th);
        assert(0 <= af0);
    }
}

/// After `begin_stroke`, two samples whose taxicab separation stays
/// below the spacing threshold yield exactly one dab in total: the
/// first sample's, and none from the second. Pressure-driven sizing is
/// off, so the threshold is the same throughout, and the threshold is
/// taken unfloored (at least one pixel).
pub proof fn lemma_close_samples_single_dab(c: StamperConfig, p1: RawInputPoint, p2: RawInputPoint)
    requires
        config_wf(c),
        !c.pressure_size,
        c.size * c.spacing / (UNIT as int) >= SUB,
        raw_point_wf(p1),
        raw_point_wf(p2),
        taxi_pp(path_point_of(p1), path_point_of(p2)) < c.size * c.spacing / (UNIT as int),
    ensures
        ({
            let (acc1, last1, hist1, dabs1) = process_spec(
                c,
                true,
                0,
                Option::None,
                Seq::<PathPoint>::empty(),
                p1,
            );
            let (acc2, last2, hist2, dabs2) = process_spec(c, false, acc1, last1, hist1, p2);
            dabs1.len() == 1 && dabs2.len() == 0
        }),
{
    let (th, steps, d) = lemma_two_sample_setup(c, p1, p2);
    let pp1 = path_point_of(p1);
    let pp2 = path_point_of(p2);
    let step = step_spec(c);
    lemma_dist_le_taxi(pp1, pp2);
    if d < step {
        lemma_flat_threshold(c, pp2.pressure as int);
        let (em, a2) = emit_while_spec(c, pp1, pp2, 0 + d, th, d);
        assert(em.len() == 0);
        assert((seq![pp2]).drop_first() =~= Seq::<PathPoint>::empty());
        let (af, lf, rest) = emit_pts_spec(c, a2, Some(pp2), Seq::<PathPoint>::empty());
        assert(rest.len() == 0);
        assert((em + rest).len() == 0);
    } else {
        let pts = linear_path_spec(pp1, pp2, step);
        lemma_two_sample_path(c, p1, p2);
        lemma_emit_lerp_path(c, pp1, pp2, steps, 0, 0, pts);
        lemma_lerp_at_zero_frac(pp1, pp2, steps);
        let (af, lf, ds) = emit_pts_spec(c, 0, Some(pp1), pts);
        assert(th * ds.len() + af <= taxi_pp(pp1, pp2));
        if ds.len() >= 1 {
            assert(th * ds.len() >= th) by (nonlinear_arith)
                requires ds.len() >= 1, th >= 1,
            ;
        }
        assert(ds.len() == 0);
    }
}

/// After `begin_stroke`, two samples ten spacing thresholds apart yield
/// at least five dabs from the second sample alone (on top of the
/// first sample's one), under the same flat-threshold conditions.
pub proof fn lemma_far_samples_many_dabs(c: StamperConfig, p1: RawInputPoint, p2: RawInputPoint)
    requires
        config_wf(c),
        !c.pressure_size,
        c.size * c.spacing / (UNIT as int) >= SUB,
        raw_point_wf(p1),
        raw_point_wf(p2),
        dist_pp(path_point_of(p1), path_point_of(p2)) >= 10 * (c.size * c.spacing / (
        UNIT as int)),
    ensures
        ({
            let (acc1, last1, hist1, dabs1) = process_spec(
                c,
                true,
                0,
                Option::None,
                Seq::<PathPoint>::empty(),
                p1,
            );
            let (acc2, last2, hist2, dabs2) = process_spec(c, false, acc1, last1, hist1, p2);
            dabs1.len() == 1 && dabs2.len() >= 5
        }),
{
    let (th, steps, d) = lemma_two_sample_setup(c, p1, p2);
    let pp1 = path_point_of(p1);
    let pp2 = path_point_of(p2);
    let step = step_spec(c);
    assert(d >= step);
    let pts = linear_path_spec(pp1, pp2, step);
    lemma_two_sample_path(c, p1, p2);
    lemma_emit_lerp_path(c, pp1, pp2, steps, 0, 0, pts);
    lemma_lerp_at_zero_frac(pp1, pp2, steps);
    let (af, lf, ds) = emit_pts_spec(c, 0, Some(pp1), pts);
    let dx = abs_i(pp2.x - pp1.x);
    let dy = abs_i(pp2.y - pp1.y);
    let nsq = ((pp2.x - pp1.x) * (pp2.x - pp1.x) + (pp2.y - pp1.y) * (pp2.y - pp1.y)) as nat;
    crate::fixed::lemma_sqrt_floor_bounds(nsq);
    assert((pp2.x - pp1.x) * (pp2.x - pp1.x) >= 0 && (pp2.y - pp1.y) * (pp2.y - pp1.y) >= 0)
        by (nonlinear_arith);
    assert(d == sqrt_floor(nsq) as int);
    assert(d * d <= nsq) by (nonlinear_arith)
        requires
            d == sqrt_floor(nsq) as int,
            sqrt_floor(nsq) * sqrt_floor(nsq) <= nsq,
    ;
    assert(dx * dx == (pp2.x - pp1.x) * (pp2.x - pp1.x)) by (nonlinear_arith)
        requires dx == pp2.x - pp1.x || dx == -(pp2.x - pp1.x),
    ;
    assert(dy * dy == (pp2.y - pp1.y) * (pp2.y - pp1.y)) by (nonlinear_arith)
        requires dy == pp2.y - pp1.y || dy == -(pp2.y - pp1.y),
    ;
    assert(dx >= 7 * th || dy >= 7 * th) by (nonlinear_arith)
        requires
            d >= 10 * th,
            th >= 1,
            d * d <= (pp2.x - pp1.x) * (pp2.x - pp1.x) + (pp2.y - pp1.y) * (pp2.y - pp1.y),
            dx * dx == (pp2.x - pp1.x) * (pp2.x - pp1.x),
            dy * dy == (pp2.y - pp1.y) * (pp2.y - pp1.y),
            dx >= 0,
            dy >= 0,
    ;
    assert(th * ds.len() + af >= dx);
    assert(th * ds.len() + af >= dy);
    assert(af < th);
    assert(ds.len() >= 7) by (nonlinear_arith)
        requires
            th * ds.len() + af >= 7 * th,
            af < th,
            th >= 1,
            ds.len() >= 0,
    ;
}

/// Shared unfolding for the two-sample scenarios: the first call emits
/// exactly one dab and hands the second call the history `[pp1, pp2]`,
/// which resamples linearly; returns the flat threshold, the resampling
/// step count and the inter-sample distance.
proof fn lemma_two_sample_setup(c: StamperConfig, p1: RawInputPoint, p2: RawInputPoint) -> (r: (
    int,
    int,
    int,
))
    requires
        config_wf(c),
        !c.pressure_size,
        c.size * c.spacing / (UNIT as int) >= SUB,
        raw_point_wf(p1),
        raw_point_wf(p2),
    ensures
        r.0 == flat_threshold(c),
        r.0 == c.size * c.spacing / (UNIT as int),
        r.2 == dist_pp(path_point_of(p1), path_point_of(p2)),
        1 <= step_spec(c) <= r.0,
        r.2 >= step_spec(c) ==> r.1 == (r.2 + step_spec(c) - 1) / step_spec(c) && 1 <= r.1,
        ({
            let (acc1, last1, hist1, dabs1) = process_spec(
                c,
                true,
                0,
                Option::None,
                Seq::<PathPoint>::empty(),
                p1,
            );
            let (acc2, last2, hist2, dabs2) = process_spec(c, false, acc1, last1, hist1, p2);
            let pp1 = path_point_of(p1);
            let pp2 = path_point_of(p2);
            &&& dabs1.len() == 1
            &&& acc1 == 0
            &&& last1 == Some(pp1)
            &&& hist1 == seq![pp1]
            &&& dabs2 == emit_pts_spec(c, 0, Some(pp1), linear_path_spec(pp1, pp2, step_spec(c))).2
        }),
{
    let pp1 = path_point_of(p1);
    let pp2 = path_point_of(p2);
    let t0 = c.size * c.spacing / (UNIT as int);
    let step = step_spec(c);
    vstd::arithmetic::div_mod::lemma_div_pos_is_pos(t0, 2);
    vstd::arithmetic::div_mod::lemma_div_is_ordered(2, t0, 2);
    vstd::arithmetic::div_mod::lemma_div_is_ordered(t0, t0 + t0, 2);
    assert(t0 + t0 == 2 * t0);
    assert(2 * t0 / 2 == t0) by {
        vstd::arithmetic::div_mod::lemma_div_multiples_vanish(t0, 2);
    };
    assert(Seq::<PathPoint>::empty().push(pp1) =~= seq![pp1]);
    assert(push_history(Seq::<PathPoint>::empty(), pp1) == seq![pp1]);
    let hist2 = push_history(seq![pp1], pp2);
    assert((seq![pp1]).push(pp2) =~= seq![pp1, pp2]);
    assert(hist2 == seq![pp1, pp2]);
    assert(hist2[0] == pp1 && hist2[1] == pp2);
    let d = dist_pp(pp1, pp2);
    if d >= step {
        let steps = (d + step - 1) / step;
        vstd::arithmetic::div_mod::lemma_div_pos_is_pos(d + step - 1, step);
        vstd::arithmetic::div_mod::lemma_div_is_ordered(step, d + step - 1, step);
        vstd::arithmetic::div_mod::lemma_div_basics(step);
        (t0, steps, d)
    } else {
        (t0, 0, d)
    }
}

/// The linear resampling of two samples matches the shape the path
/// induction wants.
proof fn lemma_two_sample_path(c: StamperConfig, p1: RawInputPoint, p2: RawInputPoint)
    requires
        config_wf(c),
        !c.pressure_size,
        c.size * c.spacing / (UNIT as int) >= SUB,
        raw_point_wf(p1),
        raw_point_wf(p2),
        dist_pp(path_point_of(p1), path_point_of(p2)) >= step_spec(c),
    ensures
        ({
            let pp1 = path_point_of(p1);
            let pp2 = path_point_of(p2);
            let step = step_spec(c);
            let steps = (dist_pp(pp1, pp2) + step - 1) / step;
            let pts = linear_path_spec(pp1, pp2, step);
            &&& pts.len() == steps
            &&& forall|k: int|
                0 <= k < pts.len() ==> #[trigger] pts[k] == lerp_pp(
                    pp1,
                    pp2,
                    (k + 0 + 1) * UNIT / steps,
                )
        }),
{
    let pp1 = path_point_of(p1);
    let pp2 = path_point_of(p2);
    let step = step_spec(c);
    let d = dist_pp(pp1, pp2);
    let steps = (d + step - 1) / step;
    vstd::arithmetic::div_mod::lemma_div_pos_is_pos(d + step - 1, step);
}

/// At the zero parameter the walk starts at the first sample.
proof fn lemma_lerp_at_zero_frac(a: PathPoint, b: PathPoint, steps: int)
    requires
        1 <= steps,
    ensures
        lerp_pp(a, b, 0 * UNIT / steps) == a,
        Some(lerp_pp(a, b, 0 * UNIT / steps)) == Some(a),
{
    vstd::arithmetic::div_mod::lemma_div_basics(steps);
    assert(0 * UNIT == 0) by (nonlinear_arith);
    lemma_lerp_pp_at_zero(a, b);
}

/// The sample history after taking in one more sample: at most the four
/// most recent samples are kept.
pub open spec fn push_history(h: Seq<PathPoint>, pp: PathPoint) -> Seq<PathPoint> {
    let h2 = h.push(pp);
    if h2.len() > 4 {
        h2.subrange(1, h2.len() as int)
    } else {
        h2
    }
}

/// One whole step of the stamper: the new accumulated distance, last
/// stamp point, sample history, and the dabs emitted. The first sample
/// of a stroke always emits exactly one dab at its own position.
pub open spec fn process_spec(
    c: StamperConfig,
    start: bool,
    acc: int,
    last: Option<PathPoint>,
    hist: Seq<PathPoint>,
    p: RawInputPoint,
) -> (int, Option<PathPoint>, Seq<PathPoint>, Seq<Dab>) {
    let pp = path_point_of(p);
    let hist2 = push_history(hist, pp);
    if start {
        (acc, Some(pp), hist2, seq![dab_spec(c, pp)])
    } else if hist2.len() < 2 {
        (acc, last, hist2, Seq::<Dab>::empty())
    } else {
        let pts = interpolate_spec(c, hist2);
        let (acc2, last2, dabs) = emit_pts_spec(c, acc, last, pts);
        (acc2, last2, hist2, dabs)
    }
}

/// The dab emitter's per-stroke state: the active configuration, the
/// distance accumulated since the last dab, the point where the last
/// dab landed, the recent sample history, and whether the next sample
/// starts the stroke.
pub struct BrushStamper {
    config: StamperConfig,
    accumulated_distance: i64,
    last_stamp_point: Option<PathPoint>,
    point_history: Vec<PathPoint>,
    is_stroke_start: bool,
}

impl BrushStamper {
    pub closed spec fn spec_config(&self) -> StamperConfig {
        self.config
    }

    pub closed spec fn spec_acc(&self) -> int {
        self.accumulated_distance as int
    }

    pub closed spec fn spec_last(&self) -> Option<PathPoint> {
        self.last_stamp_point
    }

    pub closed spec fn spec_history(&self) -> Seq<PathPoint> {
        self.point_history@
    }

    pub closed spec fn spec_start(&self) -> bool {
        self.is_stroke_start
    }

    /// Structural invariant: a valid configuration, a small bounded
    /// accumulator, and well-formed recent points.
    pub closed spec fn wf(&self) -> bool {
        &&& config_wf(self.config)
        &&& 0 <= self.accumulated_distance <= 0x800_0000
        &&& self.point_history@.len() <= 4
        &&& forall|i: int|
            0 <= i < self.point_history@.len() ==> pp_wf(#[trigger] self.point_history@[i])
        &&& match self.last_stamp_point {
            Option::Some(l) => pp_wf(l),
            Option::None => true,
        }
    }

    pub fn new(config: StamperConfig) -> (s: BrushStamper)
        requires
            config_wf(config),
        ensures
            s.wf(),
            s.spec_config() == config,
            s.spec_acc() == 0,
            s.spec_last() is None,
            s.spec_history() == Seq::<PathPoint>::empty(),
            s.spec_start(),
    {
        let s = BrushStamper {
            config,
            accumulated_distance: 0,
            last_stamp_point: None,
            point_history: Vec::new(),
            is_stroke_start: true,
        };
        proof {
            assert(s.point_history@ =~= Seq::<PathPoint>::empty());
        }
        s
    }

    /// Replace the configuration; per-stroke state is untouched.
    pub fn set_config(&mut self, config: StamperConfig)
        requires
            old(self).wf(),
            config_wf(config),
        ensures
            final(self).wf(),
            final(self).spec_config() == config,
            final(self).spec_acc() == old(self).spec_acc(),
            final(self).spec_last() == old(self).spec_last(),
            final(self).spec_history() == old(self).spec_history(),
            final(self).spec_start() == old(self).spec_start(),
    {
        self.config = config;
    }

    pub fn config(&self) -> (c: &StamperConfig)
        ensures
            c == self.spec_config(),
    {
        &self.config
    }

    /// Reset all per-stroke state for a new stroke.
    pub fn begin_stroke(&mut self)
        requires
            old(self).wf(),
        ensures
            final(self).wf(),
            final(self).spec_config() == old(self).spec_config(),
            final(self).spec_acc() == 0,
            final(self).spec_last() is None,
            final(self).spec_history() == Seq::<PathPoint>::empty(),
            final(self).spec_start(),
    {
        self.accumulated_distance = 0;
        self.last_stamp_point = None;
        self.point_history.clear();
        self.is_stroke_start = true;
        proof {
            assert(self.point_history@ =~= Seq::<PathPoint>::empty());
        }
    }

    /// Finish the stroke: the state is reset; no further dabs are owed.
    pub fn finish_stroke(&mut self) -> (dabs: Vec<Dab>)
        requires
            old(self).wf(),
        ensures
            final(self).wf(),
            final(self).spec_config() == old(self).spec_config(),
            final(self).spec_acc() == 0,
            final(self).spec_last() is None,
            final(self).spec_history() == Seq::<PathPoint>::empty(),
            final(self).spec_start(),
            dabs@ == Seq::<Dab>::empty(),
    {
        let dabs: Vec<Dab> = Vec::new();
        self.begin_stroke();
        proof {
            assert(dabs@ =~= Seq::<Dab>::empty());
        }
        dabs
    }

    /// The dab size at a pressure.
    fn calculate_size(&self, pressure: i64) -> (r: i64)
        requires
            self.wf(),
            0 <= pressure <= UNIT,
        ensures
            r == size_spec(self.spec_config(), pressure as int),
            0 <= r <= self.spec_config().size,
    {
        if self.config.pressure_size {
            let mn = scale_coord(self.config.size, self.config.min_size_ratio);
            mn + scale_coord(self.config.size - mn, pressure)
        } else {
            self.config.size
        }
    }

    /// The dab alpha at a pressure.
    fn calculate_alpha(&self, pressure: i64) -> (r: i64)
        requires
            self.wf(),
            0 <= pressure <= UNIT,
        ensures
            r == alpha_spec(self.spec_config(), pressure as int),
            0 <= r <= self.spec_config().flow,
    {
        if self.config.pressure_alpha {
            let mn = scale_unit(self.config.flow, self.config.min_alpha_ratio);
            mn + scale_unit(self.config.flow - mn, pressure)
        } else {
            self.config.flow
        }
    }

    /// Build the dab a path point produces.
    fn create_dab(&self, point: &PathPoint) -> (d: Dab)
        requires
            self.wf(),
            pp_wf(*point),
        ensures
            d == dab_spec(self.spec_config(), *point),
    {
        let size = self.calculate_size(point.pressure);
        let alpha = self.calculate_alpha(point.pressure);
        let angle = atan2_fixed(point.tilt_y, point.tilt_x);
        Dab { x: point.x, y: point.y, size, alpha, angle, pressure: point.pressure }
    }

    /// The resampling step for the current configuration.
    fn step_len(&self) -> (r: i64)
        requires
            self.wf(),
        ensures
            r == step_spec(self.spec_config()),
            1 <= r <= 0x400_0000,
    {
        proof {
            assert(self.config.size * self.config.spacing <= 0x400_0000_0000i64
                && 0 <= self.config.size * self.config.spacing) by (nonlinear_arith)
                requires
                    0 <= self.config.size <= 0x100_0000i64,
                    0 <= self.config.spacing <= 0x4_0000i64,
            ;
            vstd::arithmetic::div_mod::lemma_div_pos_is_pos(
                self.config.size * self.config.spacing,
                UNIT as int,
            );
            vstd::arithmetic::div_mod::lemma_div_is_ordered(
                self.config.size * self.config.spacing,
                0x400_0000_0000,
                UNIT as int,
            );
        }
        let s = (((self.config.size as u64) * (self.config.spacing as u64)) / (UNIT as u64))
            as i64 / 2;
        if s < 1 {
            1
        } else {
            s
        }
    }

    /// The dynamic spacing threshold at a pressure.
    fn threshold_at(&self, pressure: i64) -> (r: i64)
        requires
            self.wf(),
            0 <= pressure <= UNIT,
        ensures
            r == threshold_spec(self.spec_config(), pressure as int),
            SUB <= r <= 0x800_0000,
    {
        let size = self.calculate_size(pressure);
        proof {
            assert(size * self.config.spacing <= 0x400_0000_0000i64 && 0 <= size
                * self.config.spacing) by (nonlinear_arith)
                requires
                    0 <= size <= 0x100_0000i64,
                    0 <= self.config.spacing <= 0x4_0000i64,
            ;
            vstd::arithmetic::div_mod::lemma_div_pos_is_pos(
                size * self.config.spacing,
                UNIT as int,
            );
            vstd::arithmetic::div_mod::lemma_div_is_ordered(
                size * self.config.spacing,
                0x400_0000_0000,
                UNIT as int,
            );
        }
        let t = (((size as u64) * (self.config.spacing as u64)) / (UNIT as u64)) as i64;
        if t < SUB {
            SUB
        } else {
            t
        }
    }

    /// The last two history samples resampled linearly.
    fn linear_interpolate(&self) -> (pts: Vec<PathPoint>)
        requires
            self.wf(),
            self.spec_history().len() >= 2,
        ensures
            pts@ == linear_path_spec(
                self.spec_history()[self.spec_history().len() - 2],
                self.spec_history()[self.spec_history().len() - 1],
                step_spec(self.spec_config()),
            ),
            forall|i: int| 0 <= i < pts@.len() ==> pp_wf(#[trigger] pts@[i]),
    {
        let n = self.point_history.len();
        let p0 = self.point_history[n - 2];
        let p1 = self.point_history[n - 1];
        let d = dist_pp_exec(&p0, &p1);
        let step = self.step_len();
        let mut result: Vec<PathPoint> = Vec::new();
        if d < step {
            result.push(p1);
            proof {
                assert(result@ =~= seq![p1]);
            }
            return result;
        }
        let steps = (d + step - 1) / step;
        proof {
            vstd::arithmetic::div_mod::lemma_div_pos_is_pos(d + step - 1, step as int);
            vstd::arithmetic::div_mod::lemma_div_nonincreasing(d + step - 1, step as int);
            vstd::arithmetic::div_mod::lemma_div_is_ordered(step as int, d + step - 1, step as int);
            vstd::arithmetic::div_mod::lemma_div_basics(step as int);
        }
        let mut k: u64 = 0;
        while k < steps as u64
            invariant
                self.wf(),
                pp_wf(p0),
                pp_wf(p1),
                0 < steps <= 0x1_4000_0000,
                k <= steps,
                result@.len() == k,
                forall|j: int|
                    0 <= j < k ==> #[trigger] result@[j] == lerp_pp(
                        p0,
                        p1,
                        (j + 1) * UNIT / (steps as int),
                    ),
                forall|j: int| 0 <= j < k ==> pp_wf(#[trigger] result@[j]),
            decreases steps - k,
        {
            let t = frac_of(k, steps);
            result.push(lerp_pp_exec(&p0, &p1, t));
            k += 1;
        }
        proof {
            assert(k == steps as u64);
            assert(steps as int == (d + step - 1) as int / (step as int));
            assert forall|j: int| 0 <= j < result@.len() implies #[trigger] result@[j] == lerp_pp(
                p0,
                p1,
                (j + 1) * UNIT / ((d + step - 1) as int / (step as int)),
            ) by {
                assert(result@[j] == lerp_pp(p0, p1, (j + 1) * UNIT / (steps as int)));
            };
            assert(result@ =~= Seq::new(
                ((d + step - 1) as int / (step as int)) as nat,
                |j: int| lerp_pp(p0, p1, (j + 1) * UNIT / ((d + step - 1) as int / (step as int))),
            ));
        }
        result
    }

    /// The middle segment of the last four samples resampled along the
    /// Catmull-Rom spline.
    fn catmull_rom_interpolate(&self) -> (pts: Vec<PathPoint>)
        requires
            self.wf(),
            self.spec_history().len() >= 4,
        ensures
            pts@ == catmull_path_spec(
                self.spec_history()[self.spec_history().len() - 4],
                self.spec_history()[self.spec_history().len() - 3],
                self.spec_history()[self.spec_history().len() - 2],
                self.spec_history()[self.spec_history().len() - 1],
                step_spec(self.spec_config()),
            ),
            forall|i: int| 0 <= i < pts@.len() ==> pp_wf(#[trigger] pts@[i]),
    {
        let n = self.point_history.len();
        let p0 = self.point_history[n - 4];
        let p1 = self.point_history[n - 3];
        let p2 = self.point_history[n - 2];
        let p3 = self.point_history[n - 1];
        let d = dist_pp_exec(&p1, &p2);
        let step = self.step_len();
        let mut result: Vec<PathPoint> = Vec::new();
        if d < step {
            result.push(p2);
            proof {
                assert(result@ =~= seq![p2]);
            }
            return result;
        }
        let steps = (d + step - 1) / step;
        proof {
            vstd::arithmetic::div_mod::lemma_div_pos_is_pos(d + step - 1, step as int);
            vstd::arithmetic::div_mod::lemma_div_nonincreasing(d + step - 1, step as int);
            vstd::arithmetic::div_mod::lemma_div_is_ordered(step as int, d + step - 1, step as int);
            vstd::arithmetic::div_mod::lemma_div_basics(step as int);
        }
        let mut k: u64 = 0;
        while k < steps as u64
            invariant
                self.wf(),
                pp_wf(p0),
                pp_wf(p1),
                pp_wf(p2),
                pp_wf(p3),
                0 < steps <= 0x1_4000_0000,
                k <= steps,
                result@.len() == k,
                forall|j: int|
                    0 <= j < k ==> #[trigger] result@[j] == catmull_point_spec(
                        p0,
                        p1,
                        p2,
                        p3,
                        (j + 1) * UNIT / (steps as int),
                    ),
                forall|j: int| 0 <= j < k ==> pp_wf(#[trigger] result@[j]),
            decreases steps - k,
        {
            let t = frac_of(k, steps);
            result.push(catmull_point_exec(&p0, &p1, &p2, &p3, t));
            k += 1;
        }
        proof {
            assert(k == steps as u64);
            assert(steps as int == (d + step - 1) as int / (step as int));
            assert forall|j: int| 0 <= j < result@.len() implies #[trigger] result@[j]
                == catmull_point_spec(
                p0,
                p1,
                p2,
                p3,
                (j + 1) * UNIT / ((d + step - 1) as int / (step as int)),
            ) by {
                assert(result@[j] == catmull_point_spec(p0, p1, p2, p3, (j + 1) * UNIT / (
                steps as int)));
            };
            assert(result@ =~= Seq::new(
                ((d + step - 1) as int / (step as int)) as nat,
                |j: int| catmull_point_spec(
                    p0,
                    p1,
                    p2,
                    p3,
                    (j + 1) * UNIT / ((d + step - 1) as int / (step as int)),
                ),
            ));
        }
        result
    }

    /// Consume one raw sample and return the dabs to render, in order.
    /// The whole step is pinned to `process_spec`; in particular the
    /// very first sample of a stroke emits exactly one dab at the
    /// sample's own position.
    #[verifier::loop_isolation(false)]
    #[verifier::rlimit(100)]
    pub fn process_point(&mut self, point: &RawInputPoint) -> (dabs: Vec<Dab>)
        requires
            old(self).wf(),
            raw_point_wf(*point),
        ensures
            final(self).wf(),
            final(self).spec_config() == old(self).spec_config(),
            !final(self).spec_start(),
            ({
                let (acc2, last2, hist2, dabs2) = process_spec(
                    old(self).spec_config(),
                    old(self).spec_start(),
                    old(self).spec_acc(),
                    old(self).spec_last(),
                    old(self).spec_history(),
                    *point,
                );
                &&& final(self).spec_acc() == acc2
                &&& final(self).spec_last() == last2
                &&& final(self).spec_history() == hist2
                &&& dabs@ == dabs2
            }),
            old(self).spec_start() ==> dabs@.len() == 1 && dabs@[0] == dab_spec(
                old(self).spec_config(),
                path_point_of(*point),
            ) && dabs@[0].x == point.x && dabs@[0].y == point.y,
    {
        let path_point = PathPoint {
            x: point.x,
            y: point.y,
            pressure: point.pressure,
            tilt_x: point.tilt_x,
            tilt_y: point.tilt_y,
        };
        let mut dabs: Vec<Dab> = Vec::new();
        self.point_history.push(path_point);
        if self.point_history.len() > 4 {
            self.point_history.remove(0);
        }
        proof {
            assert(self.point_history@ =~= push_history(old(self).spec_history(), path_point));
            assert(dabs@ =~= Seq::<Dab>::empty());
        }
        if self.is_stroke_start {
            self.is_stroke_start = false;
            self.last_stamp_point = Some(path_point);
            let d0 = self.create_dab(&path_point);
            dabs.push(d0);
            proof {
                assert(dabs@ =~= seq![dab_spec(self.spec_config(), path_point)]);
            }
            return dabs;
        }
        if self.point_history.len() < 2 {
            return dabs;
        }
        let path_points = self.interpolate_path();
        let ghost pts = path_points@;
        let ghost cfg = self.spec_config();
        let ghost hist2 = self.point_history@;
        let ghost fin = emit_pts_spec(cfg, self.spec_acc(), self.spec_last(), pts);
        let n = path_points.len();
        proof {
            assert(pts.skip(0) =~= pts);
            assert(dabs@ + fin.2 =~= fin.2);
        }
        let mut i: usize = 0;
        while i < n
            invariant
                self.wf(),
                self.spec_config() == cfg,
                self.point_history@ == hist2,
                !self.is_stroke_start,
                i <= n,
                ({
                    let (a2, l2, ds) = emit_pts_spec(
                        cfg,
                        self.spec_acc(),
                        self.spec_last(),
                        pts.skip(i as int),
                    );
                    fin == (a2, l2, dabs@ + ds)
                }),
            decreases n - i,
        {
            let q = path_points[i];
            proof {
                assert(pts.skip(i as int)[0] == pts[i as int]);
                assert(pts.skip(i as int).drop_first() =~= pts.skip(i as int + 1));
            }
            match self.last_stamp_point {
                Option::None => {
                    self.last_stamp_point = Some(q);
                },
                Option::Some(l) => {
                    let d = dist_pp_exec(&l, &q);
                    let acc1 = self.accumulated_distance + d;
                    let th = self.threshold_at(q.pressure);
                    let ghost ew = emit_while_spec(cfg, l, q, acc1 as int, th as int, d as int);
                    let ghost dabs_mid = dabs@;
                    let ghost acc_snap = self.accumulated_distance as int;
                    proof {
                        assert(dabs@.take(dabs_mid.len() as int) =~= dabs_mid);
                        assert(dabs@.skip(dabs_mid.len() as int) =~= Seq::<Dab>::empty());
                        assert(Seq::<Dab>::empty() + ew.0 =~= ew.0);
                    }
                    let mut acc = acc1;
                    while acc >= th
                        invariant
                            self.wf(),
                            self.spec_config() == cfg,
                            self.point_history@ == hist2,
                            !self.is_stroke_start,
                            self.accumulated_distance == acc_snap,
                            pp_wf(l),
                            pp_wf(q),
                            th == threshold_spec(cfg, q.pressure as int),
                            SUB <= th <= 0x800_0000,
                            0 <= acc <= acc1,
                            acc1 <= 0x1_0900_0000,
                            d == dist_pp(l, q),
                            0 <= d,
                            dabs_mid.len() <= dabs@.len(),
                            dabs_mid == dabs@.take(dabs_mid.len() as int),
                            ({
                                let (es, af) = emit_while_spec(
                                    cfg,
                                    l,
                                    q,
                                    acc as int,
                                    th as int,
                                    d as int,
                                );
                                ew == (dabs@.skip(dabs_mid.len() as int) + es, af)
                            }),
                        decreases acc,
                    {
                        let overshoot = acc - th;
                        let t: i64 = if d > 0 {
                            proof {
                                vstd::arithmetic::div_mod::lemma_div_pos_is_pos(
                                    overshoot * UNIT,
                                    d as int,
                                );
                                assert(overshoot * UNIT <= 0x7FFF_FFFF_FFFF_FFFFi64)
                                    by (nonlinear_arith)
                                    requires 0 <= overshoot <= 0x1_0900_0000i64,
                                ;
                            }
                            let ratio = (((overshoot as u64) * (UNIT as u64)) / (d as u64)) as i64;
                            if ratio < UNIT {
                                UNIT - ratio
                            } else {
                                0
                            }
                        } else {
                            UNIT
                        };
                        proof {
                            assert(t == emit_t(overshoot as int, d as int));
                        }
                        let dab_point = lerp_pp_exec(&l, &q, t);
                        let nd = self.create_dab(&dab_point);
                        let ghost dabs_prev = dabs@;
                        dabs.push(nd);
                        acc = acc - th;
                        self.last_stamp_point = Some(dab_point);
                        proof {
                            let m = dabs_mid.len() as int;
                            let (es2, af2) = emit_while_spec(
                                cfg,
                                l,
                                q,
                                acc as int,
                                th as int,
                                d as int,
                            );
                            assert(dabs@.take(m) =~= dabs_prev.take(m));
                            assert(dabs@.skip(m) =~= dabs_prev.skip(m) + seq![nd]);
                            assert(dabs_prev.skip(m) + (seq![nd] + es2) =~= dabs@.skip(m) + es2);
                        }
                    }
                    self.accumulated_distance = acc;
                    self.last_stamp_point = Some(q);
                    proof {
                        assert(emit_while_spec(cfg, l, q, acc as int, th as int, d as int)
                            == (Seq::<Dab>::empty(), acc as int));
                        assert(dabs@.skip(dabs_mid.len() as int) + Seq::<Dab>::empty() =~= dabs@.skip(
                            dabs_mid.len() as int,
                        ));
                        let m = dabs_mid.len() as int;
                        assert(dabs_mid.len() == dabs@.take(m).len());
                        assert(m <= dabs@.len());
                        assert forall|j: int| 0 <= j < dabs@.len() implies (dabs_mid + dabs@.skip(
                            m,
                        ))[j] == dabs@[j] by {
                            if j < m {
                                assert(dabs_mid[j] == dabs@.take(m)[j]);
                            } else {
                                assert(dabs@.skip(m)[j - m] == dabs@[j]);
                            }
                        };
                        assert(dabs_mid + dabs@.skip(m) =~= dabs@);
                    }
                },
            }
            i += 1;
        }
        proof {
            assert(pts.skip(n as int) =~= Seq::<PathPoint>::empty());
            assert(dabs@ + Seq::<Dab>::empty() =~= dabs@);
        }
        dabs
    }

    /// The history resampled: linear below four samples, spline from
    /// four on.
    fn interpolate_path(&self) -> (pts: Vec<PathPoint>)
        requires
            self.wf(),
            self.spec_history().len() >= 2,
        ensures
            pts@ == interpolate_spec(self.spec_config(), self.spec_history()),
            forall|i: int| 0 <= i < pts@.len() ==> pp_wf(#[trigger] pts@[i]),
    {
        let n = self.point_history.len();
        if n < 4 {
            self.linear_interpolate()
        } else {
            self.catmull_rom_interpolate()
        }
    }
}

} // verus!
