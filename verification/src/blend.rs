//! Blend-mode algebra over premultiplied fixed-point pixels.
//!
//! `Normal` is the plain "over" operator. The five separable modes share
//! one numeric pipeline: take both pixels straight, apply the mode's
//! formula, mix the result with the destination color in proportion to
//! the source alpha, and premultiply by the composite alpha.

use vstd::prelude::*;
use crate::fixed::{UNIT, ALPHA_EPS, scale_unit, ratio_unit};
use crate::pixel::{Pixel, pixel_wf};

verus! {

#[derive(Debug, Clone, Copy, PartialEq, Eq, Structural, Default)]
pub enum BlendFunc {
    #[default]
    Normal,
    Multiply,
    Screen,
    Overlay,
    Darken,
    Lighten,
}

/// One channel of the "over" operator:
/// `s + d * (1 - src alpha)`.
pub open spec fn over_channel(s: int, d: int, sa: int) -> int {
    s + d * (UNIT - sa) / (UNIT as int)
}

/// The "over" operator on whole pixels, channelwise including alpha.
pub open spec fn normal_spec(src: Pixel, dst: Pixel) -> (int, int, int, int) {
    (
        over_channel(src.r as int, dst.r as int, src.a as int),
        over_channel(src.g as int, dst.g as int, src.a as int),
        over_channel(src.b as int, dst.b as int, src.a as int),
        over_channel(src.a as int, dst.a as int, src.a as int),
    )
}

/// A premultiplied channel taken straight.
pub open spec fn straight_channel(c: int, a: int) -> int {
    c * UNIT / a
}

/// The nonlinear formula of each separable mode, on straight channels.
pub open spec fn mode_formula(m: BlendFunc, s: int, d: int) -> int {
    match m {
        BlendFunc::Normal => s,
        BlendFunc::Multiply => s * d / (UNIT as int),
        BlendFunc::Screen => UNIT - (UNIT - s) * (UNIT - d) / (UNIT as int),
        BlendFunc::Overlay => if 2 * d < UNIT {
            2 * s * d / (UNIT as int)
        } else {
            UNIT - 2 * (UNIT - s) * (UNIT - d) / (UNIT as int)
        },
        BlendFunc::Darken => if s <= d { s } else { d },
        BlendFunc::Lighten => if s >= d { s } else { d },
    }
}

/// Mix the blended channel into the destination channel in proportion to
/// the source alpha.
pub open spec fn lerp_channel(d: int, bl: int, sa: int) -> int {
    if bl >= d {
        d + (bl - d) * sa / (UNIT as int)
    } else {
        d - (d - bl) * sa / (UNIT as int)
    }
}

/// One color channel of a separable blend, after both guard cases have
/// been passed.
pub open spec fn separable_channel(m: BlendFunc, sc: int, dc: int, sa: int, da: int) -> int {
    let s = straight_channel(sc, sa);
    let d = straight_channel(dc, da);
    let bl = mode_formula(m, s, d);
    let oa = over_channel(sa, da, sa);
    lerp_channel(d, bl, sa) * oa / (UNIT as int)
}

/// A whole separable blend: a nearly transparent source returns the
/// destination, a nearly transparent destination returns the source.
pub open spec fn separable_spec(m: BlendFunc, src: Pixel, dst: Pixel) -> (int, int, int, int) {
    if src.a < ALPHA_EPS {
        (dst.r as int, dst.g as int, dst.b as int, dst.a as int)
    } else if dst.a < ALPHA_EPS {
        (src.r as int, src.g as int, src.b as int, src.a as int)
    } else {
        (
            separable_channel(m, src.r as int, dst.r as int, src.a as int, dst.a as int),
            separable_channel(m, src.g as int, dst.g as int, src.a as int, dst.a as int),
            separable_channel(m, src.b as int, dst.b as int, src.a as int, dst.a as int),
            over_channel(src.a as int, dst.a as int, src.a as int),
        )
    }
}

/// What each blend function returns.
pub open spec fn apply_spec(m: BlendFunc, src: Pixel, dst: Pixel) -> (int, int, int, int) {
    match m {
        BlendFunc::Normal => normal_spec(src, dst),
        _ => separable_spec(m, src, dst),
    }
}

pub open spec fn pixel_is(p: Pixel, t: (int, int, int, int)) -> bool {
    p.r == t.0 && p.g == t.1 && p.b == t.2 && p.a == t.3
}

/// Blending over an opaque destination with a fully transparent source
/// returns the destination unchanged, and a fully opaque source returns
/// the source unchanged; the first half holds for any destination.
pub proof fn lemma_normal_transparent_source(dst: Pixel)
    requires
        pixel_wf(dst),
    ensures
        normal_spec(Pixel { r: 0, g: 0, b: 0, a: 0 }, dst)
            == (dst.r as int, dst.g as int, dst.b as int, dst.a as int),
{
    lemma_full_weight_channel(dst.r as int);
    lemma_full_weight_channel(dst.g as int);
    lemma_full_weight_channel(dst.b as int);
    lemma_full_weight_channel(dst.a as int);
}

pub proof fn lemma_normal_opaque_source(src: Pixel, dst: Pixel)
    requires
        pixel_wf(src),
        pixel_wf(dst),
        src.a == UNIT,
    ensures
        normal_spec(src, dst) == (src.r as int, src.g as int, src.b as int, src.a as int),
{
    assert(dst.r as int * 0 == 0) by (nonlinear_arith);
    assert(dst.g as int * 0 == 0) by (nonlinear_arith);
    assert(dst.b as int * 0 == 0) by (nonlinear_arith);
    assert(dst.a as int * 0 == 0) by (nonlinear_arith);
    assert(0int / (UNIT as int) == 0) by (nonlinear_arith);
}

/// `d * UNIT / UNIT == d`: a channel carried at full weight is unchanged.
proof fn lemma_full_weight_channel(d: int)
    ensures
        d * (UNIT as int) / (UNIT as int) == d,
{
    assert(d * (UNIT as int) == (UNIT as int) * d) by (nonlinear_arith);
    vstd::arithmetic::div_mod::lemma_div_multiples_vanish(d, UNIT as int);
}

/// For every blend function, a source with zero alpha returns the
/// destination exactly.
pub proof fn lemma_blend_zero_alpha_source(m: BlendFunc, src: Pixel, dst: Pixel)
    requires
        pixel_wf(src),
        pixel_wf(dst),
        src.a == 0,
    ensures
        apply_spec(m, src, dst) == (dst.r as int, dst.g as int, dst.b as int, dst.a as int),
{
    if m is Normal {
        lemma_normal_transparent_source(dst);
    }
}

/// For every blend function, a destination with zero alpha returns the
/// source exactly. For the separable modes the source-transparency guard
/// runs first, so a source whose alpha is positive yet below `ALPHA_EPS`
/// is excluded here: it would return the destination instead.
pub proof fn lemma_blend_zero_alpha_dest(m: BlendFunc, src: Pixel, dst: Pixel)
    requires
        pixel_wf(src),
        pixel_wf(dst),
        dst.a == 0,
        src.a == 0 || src.a >= ALPHA_EPS,
    ensures
        apply_spec(m, src, dst) == (src.r as int, src.g as int, src.b as int, src.a as int),
{
    if m is Normal {
        assert(0int * (UNIT - src.a) == 0) by (nonlinear_arith);
        assert(0int / (UNIT as int) == 0) by (nonlinear_arith);
    }
}

/// Multiply blend with a fully opaque white source is the identity on
/// any fully opaque destination. (A partly transparent destination comes
/// back with the composite alpha forced to 1, so it is not returned
/// unchanged.)
pub proof fn lemma_multiply_white_identity(dst: Pixel)
    requires
        pixel_wf(dst),
        dst.a == UNIT,
    ensures
        apply_spec(
            BlendFunc::Multiply,
            Pixel { r: UNIT, g: UNIT, b: UNIT, a: UNIT },
            dst,
        ) == (dst.r as int, dst.g as int, dst.b as int, dst.a as int),
{
    let src = Pixel { r: UNIT, g: UNIT, b: UNIT, a: UNIT };
    lemma_full_weight_channel(UNIT as int);
    lemma_opaque_over_unit();
    lemma_multiply_white_channel(dst.r as int);
    lemma_multiply_white_channel(dst.g as int);
    lemma_multiply_white_channel(dst.b as int);
}

/// One channel of the opaque-white multiply case.
proof fn lemma_multiply_white_channel(dc: int)
    requires
        0 <= dc <= UNIT,
    ensures
        separable_channel(BlendFunc::Multiply, UNIT as int, dc, UNIT as int, UNIT as int) == dc,
{
    let u = UNIT as int;
    lemma_full_weight_channel(u);
    lemma_full_weight_channel(dc);
    lemma_opaque_over_unit();
    let s = straight_channel(u, u);
    let d = straight_channel(dc, u);
    assert(s == UNIT);
    assert(d == dc);
    let bl = mode_formula(BlendFunc::Multiply, s, d);
    assert(s * d == u * d) by (nonlinear_arith)
        requires s == u,
    ;
    vstd::arithmetic::div_mod::lemma_div_multiples_vanish(d, u);
    assert(bl == d);
    lemma_lerp_fixpoint(d, bl, u);
}

/// When the blended channel equals the destination channel, the mix
/// returns it unchanged.
proof fn lemma_lerp_fixpoint(d: int, bl: int, sa: int)
    requires
        bl == d,
    ensures
        lerp_channel(d, bl, sa) == d,
{
    assert((bl - d) * sa == 0) by (nonlinear_arith)
        requires bl == d,
    ;
    vstd::arithmetic::div_mod::lemma_div_basics(UNIT as int);
}

/// Screen blend with a fully opaque black source is the identity on any
/// fully opaque destination.
pub proof fn lemma_screen_black_identity(dst: Pixel)
    requires
        pixel_wf(dst),
        dst.a == UNIT,
    ensures
        apply_spec(
            BlendFunc::Screen,
            Pixel { r: 0, g: 0, b: 0, a: UNIT },
            dst,
        ) == (dst.r as int, dst.g as int, dst.b as int, dst.a as int),
{
    lemma_opaque_over_unit();
    lemma_screen_black_channel(dst.r as int);
    lemma_screen_black_channel(dst.g as int);
    lemma_screen_black_channel(dst.b as int);
}

/// One channel of the opaque-black screen case.
proof fn lemma_screen_black_channel(dc: int)
    requires
        0 <= dc <= UNIT,
    ensures
        separable_channel(BlendFunc::Screen, 0, dc, UNIT as int, UNIT as int) == dc,
{
    let u = UNIT as int;
    lemma_full_weight_channel(dc);
    lemma_opaque_over_unit();
    assert(0int * u == 0) by (nonlinear_arith);
    vstd::arithmetic::div_mod::lemma_div_basics(u);
    let s = straight_channel(0, u);
    let d = straight_channel(dc, u);
    assert(s == 0);
    assert(d == dc);
    let bl = mode_formula(BlendFunc::Screen, s, d);
    assert((u - s) * (u - d) == u * (u - d)) by (nonlinear_arith)
        requires s == 0,
    ;
    vstd::arithmetic::div_mod::lemma_div_multiples_vanish(u - d, u);
    assert(bl == d);
    lemma_lerp_fixpoint(d, bl, u);
}

/// An opaque source composited over an opaque destination stays opaque.
proof fn lemma_opaque_over_unit()
    ensures
        over_channel(UNIT as int, UNIT as int, UNIT as int) == UNIT,
{
    assert((UNIT as int) * 0 == 0) by (nonlinear_arith);
    assert(0int / (UNIT as int) == 0) by (nonlinear_arith);
}

/// Flow compounding: blending a dab of alpha `f` over stroke paint that
/// already carries alpha `f` strictly raises the alpha, for any `f` that
/// is neither nearly transparent nor within a fixed-point step of 1.
pub proof fn lemma_flow_compounds(f: int)
    requires
        ALPHA_EPS <= f,
        f <= UNIT - 1024,
    ensures
        over_channel(f, f, f) > f,
{
    vstd::arithmetic::mul::lemma_mul_inequality(1024, UNIT - f, f);
    assert(f * 1024 >= (ALPHA_EPS as int) * 1024) by (nonlinear_arith)
        requires f >= ALPHA_EPS as int,
    ;
    assert(f * (UNIT - f) == (UNIT - f) * f) by (nonlinear_arith);
    assert(f * 1024 == 1024 * f) by (nonlinear_arith);
    vstd::arithmetic::div_mod::lemma_div_is_ordered(UNIT as int, f * (UNIT - f), UNIT as int);
    vstd::arithmetic::div_mod::lemma_div_multiples_vanish(1, UNIT as int);
    assert((UNIT as int) * 1 == UNIT) by (nonlinear_arith);
}

/// The composite alpha sits between the source alpha and the sum of both.
pub proof fn lemma_over_alpha_bounds(sa: int, da: int)
    requires
        0 <= sa <= UNIT,
        0 <= da <= UNIT,
    ensures
        sa <= over_channel(sa, da, sa),
        over_channel(sa, da, sa) <= sa + da,
        over_channel(sa, da, sa) <= UNIT,
{
    let inv = UNIT - sa;
    vstd::arithmetic::div_mod::lemma_div_pos_is_pos(da * inv, UNIT as int);
    vstd::arithmetic::mul::lemma_mul_inequality(inv, UNIT as int, da);
    assert(da * inv == inv * da) by (nonlinear_arith);
    assert(da * (UNIT as int) == (UNIT as int) * da) by (nonlinear_arith);
    vstd::arithmetic::div_mod::lemma_div_is_ordered(da * inv, da * (UNIT as int), UNIT as int);
    vstd::arithmetic::div_mod::lemma_div_multiples_vanish(da, UNIT as int);
    vstd::arithmetic::mul::lemma_mul_inequality(da, UNIT as int, inv);
    assert(inv * da == da * inv) by (nonlinear_arith);
    assert(inv * (UNIT as int) == (UNIT as int) * inv) by (nonlinear_arith);
    vstd::arithmetic::div_mod::lemma_div_is_ordered(da * inv, inv * (UNIT as int), UNIT as int);
    vstd::arithmetic::div_mod::lemma_div_multiples_vanish(inv, UNIT as int);
}

/// `src alpha + dst alpha * (1 - src alpha)`, the composite alpha.
fn over_alpha(sa: i64, da: i64) -> (r: i64)
    requires
        0 <= sa <= UNIT,
        0 <= da <= UNIT,
    ensures
        r == over_channel(sa as int, da as int, sa as int),
        sa <= r <= UNIT,
        r <= sa + da,
{
    proof {
        lemma_over_alpha_bounds(sa as int, da as int);
    }
    sa + scale_unit(da, UNIT - sa)
}

/// `2 * a * b / UNIT` for unit-interval operands.
fn double_scale_unit(a: i64, b: i64) -> (r: i64)
    requires
        0 <= a <= UNIT,
        0 <= b <= UNIT,
    ensures
        r == 2 * a * b / (UNIT as int),
        0 <= r,
        2 * b <= UNIT ==> r <= a,
        2 * a <= UNIT ==> r <= b,
{
    proof {
        vstd::arithmetic::div_mod::lemma_div_pos_is_pos(2 * a * b, UNIT as int);
        assert(2 * a * b <= 0x2_0000_0000i64) by (nonlinear_arith)
            requires 0 <= a <= 0x1_0000i64, 0 <= b <= 0x1_0000i64,
        ;
        if 2 * b <= UNIT {
            assert(2 * a * b <= a * (UNIT as int)) by (nonlinear_arith)
                requires 0 <= a, 0 <= b, 2 * b <= UNIT as int,
            ;
            assert(a * (UNIT as int) == (UNIT as int) * a) by (nonlinear_arith);
            vstd::arithmetic::div_mod::lemma_div_is_ordered(
                2 * a * b,
                a * (UNIT as int),
                UNIT as int,
            );
            vstd::arithmetic::div_mod::lemma_div_multiples_vanish(a as int, UNIT as int);
        }
        if 2 * a <= UNIT {
            assert(2 * a * b <= b * (UNIT as int)) by (nonlinear_arith)
                requires 0 <= a, 0 <= b, 2 * a <= UNIT as int,
            ;
            assert(b * (UNIT as int) == (UNIT as int) * b) by (nonlinear_arith);
            vstd::arithmetic::div_mod::lemma_div_is_ordered(
                2 * a * b,
                b * (UNIT as int),
                UNIT as int,
            );
            vstd::arithmetic::div_mod::lemma_div_multiples_vanish(b as int, UNIT as int);
        }
    }
    ((2 * (a as u64) * (b as u64)) / (UNIT as u64)) as i64
}

/// The mode formula on straight channels, kept inside the unit interval.
fn mode_apply(m: BlendFunc, s: i64, d: i64) -> (r: i64)
    requires
        0 <= s <= UNIT,
        0 <= d <= UNIT,
    ensures
        r == mode_formula(m, s as int, d as int),
        0 <= r <= UNIT,
{
    match m {
        BlendFunc::Normal => s,
        BlendFunc::Multiply => scale_unit(s, d),
        BlendFunc::Screen => UNIT - scale_unit(UNIT - s, UNIT - d),
        BlendFunc::Overlay => {
            if 2 * d < UNIT {
                double_scale_unit(s, d)
            } else {
                UNIT - double_scale_unit(UNIT - s, UNIT - d)
            }
        },
        BlendFunc::Darken => if s <= d { s } else { d },
        BlendFunc::Lighten => if s >= d { s } else { d },
    }
}

/// The alpha-weighted mix between destination and blended channel.
fn lerp_exec(d: i64, bl: i64, sa: i64) -> (r: i64)
    requires
        0 <= d <= UNIT,
        0 <= bl <= UNIT,
        0 <= sa <= UNIT,
    ensures
        r == lerp_channel(d as int, bl as int, sa as int),
        0 <= r <= UNIT,
{
    if bl >= d {
        d + scale_unit(bl - d, sa)
    } else {
        d - scale_unit(d - bl, sa)
    }
}

/// One color channel of a separable blend.
fn sep_channel(m: BlendFunc, sc: i64, dc: i64, sa: i64, da: i64, oa: i64) -> (r: i64)
    requires
        0 <= sc <= sa,
        0 <= dc <= da,
        0 < sa <= UNIT,
        0 < da <= UNIT,
        0 <= oa <= UNIT,
        oa == over_channel(sa as int, da as int, sa as int),
    ensures
        r == separable_channel(m, sc as int, dc as int, sa as int, da as int),
        0 <= r <= oa,
{
    let s = ratio_unit(sc, sa);
    let d = ratio_unit(dc, da);
    let bl = mode_apply(m, s, d);
    let mixed = lerp_exec(d, bl, sa);
    scale_unit(mixed, oa)
}

/// Porter-Duff "over" on premultiplied pixels.
pub fn blend_normal_premul(src: Pixel, dst: Pixel) -> (out: Pixel)
    requires
        pixel_wf(src),
        pixel_wf(dst),
    ensures
        pixel_is(out, normal_spec(src, dst)),
        pixel_wf(out),
        src.a <= out.a,
        out.a <= src.a + dst.a,
{
    let inv = UNIT - src.a;
    let tr = scale_unit(dst.r, inv);
    let tg = scale_unit(dst.g, inv);
    let tb = scale_unit(dst.b, inv);
    let ta = scale_unit(dst.a, inv);
    proof {
        lemma_scaled_le(dst.r as int, dst.a as int, inv as int);
        lemma_scaled_le(dst.g as int, dst.a as int, inv as int);
        lemma_scaled_le(dst.b as int, dst.a as int, inv as int);
        lemma_over_alpha_bounds(src.a as int, dst.a as int);
    }
    Pixel { r: src.r + tr, g: src.g + tg, b: src.b + tb, a: src.a + ta }
}

/// Scaling by the same factor keeps channels inside their alpha.
proof fn lemma_scaled_le(c: int, a: int, inv: int)
    requires
        0 <= c <= a,
        0 <= inv,
    ensures
        c * inv / (UNIT as int) <= a * inv / (UNIT as int),
{
    vstd::arithmetic::mul::lemma_mul_inequality(c, a, inv);
    assert(c * inv == inv * c && a * inv == inv * a) by (nonlinear_arith);
    vstd::arithmetic::div_mod::lemma_div_is_ordered(c * inv, a * inv, UNIT as int);
}

/// Multiply blend: darkens, white is neutral.
pub fn blend_multiply_premul(src: Pixel, dst: Pixel) -> (out: Pixel)
    requires
        pixel_wf(src),
        pixel_wf(dst),
    ensures
        pixel_is(out, separable_spec(BlendFunc::Multiply, src, dst)),
        pixel_wf(out),
{
    blend_separable(BlendFunc::Multiply, src, dst)
}

/// Screen blend: lightens, black is neutral.
pub fn blend_screen_premul(src: Pixel, dst: Pixel) -> (out: Pixel)
    requires
        pixel_wf(src),
        pixel_wf(dst),
    ensures
        pixel_is(out, separable_spec(BlendFunc::Screen, src, dst)),
        pixel_wf(out),
{
    blend_separable(BlendFunc::Screen, src, dst)
}

/// Overlay blend: multiply below mid-gray, screen above it.
pub fn blend_overlay_premul(src: Pixel, dst: Pixel) -> (out: Pixel)
    requires
        pixel_wf(src),
        pixel_wf(dst),
    ensures
        pixel_is(out, separable_spec(BlendFunc::Overlay, src, dst)),
        pixel_wf(out),
{
    blend_separable(BlendFunc::Overlay, src, dst)
}

/// Darken blend: channelwise minimum of the straight colors.
pub fn blend_darken_premul(src: Pixel, dst: Pixel) -> (out: Pixel)
    requires
        pixel_wf(src),
        pixel_wf(dst),
    ensures
        pixel_is(out, separable_spec(BlendFunc::Darken, src, dst)),
        pixel_wf(out),
{
    blend_separable(BlendFunc::Darken, src, dst)
}

/// Lighten blend: channelwise maximum of the straight colors.
pub fn blend_lighten_premul(src: Pixel, dst: Pixel) -> (out: Pixel)
    requires
        pixel_wf(src),
        pixel_wf(dst),
    ensures
        pixel_is(out, separable_spec(BlendFunc::Lighten, src, dst)),
        pixel_wf(out),
{
    blend_separable(BlendFunc::Lighten, src, dst)
}

/// The shared pipeline of the five separable modes.
fn blend_separable(m: BlendFunc, src: Pixel, dst: Pixel) -> (out: Pixel)
    requires
        pixel_wf(src),
        pixel_wf(dst),
    ensures
        pixel_is(out, separable_spec(m, src, dst)),
        pixel_wf(out),
{
    if src.a < ALPHA_EPS {
        return dst;
    }
    if dst.a < ALPHA_EPS {
        return src;
    }
    // the composite alpha is at least the source alpha, which the guard
    // above has bounded away from zero, so no transparent-output case
    // remains
    let oa = over_alpha(src.a, dst.a);
    let r = sep_channel(m, src.r, dst.r, src.a, dst.a, oa);
    let g = sep_channel(m, src.g, dst.g, src.a, dst.a, oa);
    let b = sep_channel(m, src.b, dst.b, src.a, dst.a, oa);
    Pixel { r, g, b, a: oa }
}

impl BlendFunc {
    /// Apply this blend function to a source and destination pixel.
    pub fn apply(&self, src: Pixel, dst: Pixel) -> (out: Pixel)
        requires
            pixel_wf(src),
            pixel_wf(dst),
        ensures
            pixel_is(out, apply_spec(*self, src, dst)),
            pixel_wf(out),
    {
        match self {
            BlendFunc::Normal => blend_normal_premul(src, dst),
            BlendFunc::Multiply => blend_multiply_premul(src, dst),
            BlendFunc::Screen => blend_screen_premul(src, dst),
            BlendFunc::Overlay => blend_overlay_premul(src, dst),
            BlendFunc::Darken => blend_darken_premul(src, dst),
            BlendFunc::Lighten => blend_lighten_premul(src, dst),
        }
    }
}

} // verus!
