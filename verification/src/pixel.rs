//! Premultiplied-alpha pixels in fixed point.
//!
//! Channels carry `UNIT` steps per 1.0, and the premultiplied invariant
//! `r, g, b <= a <= UNIT` is part of every contract. Alphas below
//! `ALPHA_EPS` count as fully transparent.

use vstd::prelude::*;
use crate::fixed::{UNIT, ALPHA_EPS, clamp_spec, clamp64};

verus! {

#[derive(Debug, Clone, Copy, Default, PartialEq, Eq, Structural)]
pub struct Pixel {
    pub r: i64,
    pub g: i64,
    pub b: i64,
    pub a: i64,
}

/// The premultiplied invariant: every channel sits inside the alpha.
pub open spec fn pixel_wf(p: Pixel) -> bool {
    &&& 0 <= p.r <= p.a
    &&& 0 <= p.g <= p.a
    &&& 0 <= p.b <= p.a
    &&& p.a <= UNIT
}

/// One straight 8-bit channel premultiplied by a fixed-point alpha.
pub open spec fn premul_u8_spec(c: u8, a_fx: int) -> int {
    (c * UNIT / 255) * a_fx / (UNIT as int)
}

/// The premultiplied fixed-point pixel a straight 8-bit RGBA quadruple
/// denotes.
pub open spec fn from_rgba_spec(r: u8, g: u8, b: u8, a: u8) -> Pixel {
    let a_fx = a * UNIT / 255;
    Pixel {
        r: premul_u8_spec(r, a_fx) as i64,
        g: premul_u8_spec(g, a_fx) as i64,
        b: premul_u8_spec(b, a_fx) as i64,
        a: a_fx as i64,
    }
}

/// One premultiplied channel taken back to a straight 8-bit value.
pub open spec fn channel_to_u8_spec(c: int, a: int) -> int {
    clamp_spec(c * UNIT / a, 0, UNIT as int) * 255 / (UNIT as int)
}

/// The straight 8-bit quadruple a premultiplied pixel denotes; nearly
/// transparent pixels collapse to all zeroes.
pub open spec fn to_rgba_spec(p: Pixel) -> (int, int, int, int) {
    if p.a < ALPHA_EPS {
        (0, 0, 0, 0)
    } else {
        (
            channel_to_u8_spec(p.r as int, p.a as int),
            channel_to_u8_spec(p.g as int, p.a as int),
            channel_to_u8_spec(p.b as int, p.a as int),
            clamp_spec(p.a as int, 0, UNIT as int) * 255 / (UNIT as int),
        )
    }
}

/// The same pixel rescaled so its alpha becomes `new_alpha`; nearly
/// transparent pixels collapse to the transparent pixel.
pub open spec fn with_alpha_spec(p: Pixel, new_alpha: int) -> Pixel {
    if p.a < ALPHA_EPS {
        Pixel { r: 0, g: 0, b: 0, a: 0 }
    } else {
        Pixel {
            r: (p.r * new_alpha / (p.a as int)) as i64,
            g: (p.g * new_alpha / (p.a as int)) as i64,
            b: (p.b * new_alpha / (p.a as int)) as i64,
            a: new_alpha as i64,
        }
    }
}

impl Pixel {
    pub fn new(r: i64, g: i64, b: i64, a: i64) -> (p: Pixel)
        requires
            0 <= r <= a,
            0 <= g <= a,
            0 <= b <= a,
            a <= UNIT,
        ensures
            p == (Pixel { r, g, b, a }),
            pixel_wf(p),
    {
        Pixel { r, g, b, a }
    }

    pub fn transparent() -> (p: Pixel)
        ensures
            p == (Pixel { r: 0i64, g: 0i64, b: 0i64, a: 0i64 }),
            pixel_wf(p),
    {
        Pixel { r: 0, g: 0, b: 0, a: 0 }
    }

    /// Read a straight-alpha 8-bit RGBA quadruple into premultiplied
    /// fixed point.
    pub fn from_rgba_u8(r: u8, g: u8, b: u8, a: u8) -> (p: Pixel)
        ensures
            p == from_rgba_spec(r, g, b, a),
            pixel_wf(p),
            p.a <= a * UNIT / 255,
    {
        let a_fx: i64 = (a as i64) * UNIT / 255;
        let p = Pixel {
            r: premul_channel(r, a_fx),
            g: premul_channel(g, a_fx),
            b: premul_channel(b, a_fx),
            a: a_fx,
        };
        proof {
            lemma_premul_u8_wf(r, a_fx as int);
            lemma_premul_u8_wf(g, a_fx as int);
            lemma_premul_u8_wf(b, a_fx as int);
        }
        p
    }

    /// Write the pixel back as a straight-alpha 8-bit RGBA quadruple.
    pub fn to_rgba_u8(&self) -> (q: (u8, u8, u8, u8))
        requires
            pixel_wf(*self),
        ensures
            (q.0 as int, q.1 as int, q.2 as int, q.3 as int) == to_rgba_spec(*self),
    {
        if self.a < ALPHA_EPS {
            return (0, 0, 0, 0);
        }
        let r = unpremul_channel(self.r, self.a);
        let g = unpremul_channel(self.g, self.a);
        let b = unpremul_channel(self.b, self.a);
        let a_clamped = clamp64(self.a, 0, UNIT);
        proof {
            vstd::arithmetic::div_mod::lemma_div_pos_is_pos(a_clamped * 255, UNIT as int);
            vstd::arithmetic::div_mod::lemma_div_is_ordered(
                a_clamped * 255,
                UNIT as int * 255,
                UNIT as int,
            );
            vstd::arithmetic::div_mod::lemma_div_multiples_vanish(255, UNIT as int);
        }
        let a_byte = ((a_clamped as u64) * 255 / (UNIT as u64)) as i64;
        (r as u8, g as u8, b as u8, a_byte as u8)
    }

    /// Rescale the premultiplied channels so the alpha becomes
    /// `new_alpha`.
    pub fn with_alpha(&self, new_alpha: i64) -> (p: Pixel)
        requires
            pixel_wf(*self),
            0 <= new_alpha <= UNIT,
        ensures
            p == with_alpha_spec(*self, new_alpha as int),
            pixel_wf(p),
            p.a <= new_alpha,
    {
        if self.a < ALPHA_EPS {
            return Pixel { r: 0, g: 0, b: 0, a: 0 };
        }
        let r = rescale_channel(self.r, new_alpha, self.a);
        let g = rescale_channel(self.g, new_alpha, self.a);
        let b = rescale_channel(self.b, new_alpha, self.a);
        Pixel { r, g, b, a: new_alpha }
    }
}

/// `c * new_alpha / a` for a channel `c <= a`, which keeps it within
/// `new_alpha`.
fn rescale_channel(c: i64, new_alpha: i64, a: i64) -> (r: i64)
    requires
        0 <= c <= a,
        0 < a <= UNIT,
        0 <= new_alpha <= UNIT,
    ensures
        r == c * new_alpha / (a as int),
        0 <= r <= new_alpha,
{
    proof {
        vstd::arithmetic::div_mod::lemma_div_pos_is_pos(c * new_alpha, a as int);
        vstd::arithmetic::mul::lemma_mul_inequality(c as int, a as int, new_alpha as int);
        vstd::arithmetic::div_mod::lemma_div_is_ordered(
            c * new_alpha,
            a * new_alpha,
            a as int,
        );
        vstd::arithmetic::div_mod::lemma_div_multiples_vanish(new_alpha as int, a as int);
        assert(a * new_alpha == new_alpha * a) by (nonlinear_arith);
        assert(c * new_alpha <= 0x1_0000_0000i64) by (nonlinear_arith)
            requires 0 <= c <= 0x1_0000i64, 0 <= new_alpha <= 0x1_0000i64,
        ;
    }
    (((c as u64) * (new_alpha as u64)) / (a as u64)) as i64
}

/// `c * UNIT / a` clamped into `[0, UNIT]`, then scaled to a byte.
fn unpremul_channel(c: i64, a: i64) -> (r: i64)
    requires
        0 <= c <= a,
        0 < a <= UNIT,
    ensures
        r == channel_to_u8_spec(c as int, a as int),
        0 <= r <= 255,
{
    proof {
        vstd::arithmetic::div_mod::lemma_div_pos_is_pos(c * UNIT, a as int);
    }
    let straight = ((c as u64) * (UNIT as u64) / (a as u64)) as i64;
    let clamped = clamp64(straight, 0, UNIT);
    proof {
        vstd::arithmetic::div_mod::lemma_div_pos_is_pos(clamped * 255, UNIT as int);
        vstd::arithmetic::div_mod::lemma_div_is_ordered(
            clamped * 255,
            UNIT as int * 255,
            UNIT as int,
        );
        vstd::arithmetic::div_mod::lemma_div_multiples_vanish(255, UNIT as int);
    }
    ((clamped as u64) * 255 / (UNIT as u64)) as i64
}

/// Reading 8-bit RGBA always yields a valid premultiplied pixel.
pub proof fn lemma_from_rgba_wf(r: u8, g: u8, b: u8, a: u8)
    ensures
        pixel_wf(from_rgba_spec(r, g, b, a)),
        from_rgba_spec(r, g, b, a).a == a * UNIT / 255,
        from_rgba_spec(r, g, b, a).a <= UNIT,
{
    let a_fx = a * UNIT / 255;
    vstd::arithmetic::div_mod::lemma_div_pos_is_pos(a * UNIT, 255);
    vstd::arithmetic::mul::lemma_mul_inequality(a as int, 255, UNIT as int);
    vstd::arithmetic::div_mod::lemma_div_is_ordered(a * UNIT, 255 * UNIT, 255);
    vstd::arithmetic::div_mod::lemma_div_multiples_vanish(UNIT as int, 255);
    lemma_premul_u8_wf(r, a_fx);
    lemma_premul_u8_wf(g, a_fx);
    lemma_premul_u8_wf(b, a_fx);
}

/// Rescaling to a unit-interval alpha keeps the pixel well formed, with
/// exactly the requested alpha (or fully transparent below the
/// threshold).
pub proof fn lemma_with_alpha_wf(p: Pixel, new_alpha: int)
    requires
        pixel_wf(p),
        0 <= new_alpha <= UNIT,
    ensures
        pixel_wf(with_alpha_spec(p, new_alpha)),
        with_alpha_spec(p, new_alpha).a <= new_alpha,
{
    if p.a >= ALPHA_EPS {
        lemma_rescale_channel(p.r as int, new_alpha, p.a as int);
        lemma_rescale_channel(p.g as int, new_alpha, p.a as int);
        lemma_rescale_channel(p.b as int, new_alpha, p.a as int);
    }
}

/// `c * new_alpha / a <= new_alpha` when `c <= a`.
proof fn lemma_rescale_channel(c: int, new_alpha: int, a: int)
    requires
        0 <= c <= a,
        0 < a,
        0 <= new_alpha,
    ensures
        0 <= c * new_alpha / a <= new_alpha,
{
    vstd::arithmetic::div_mod::lemma_div_pos_is_pos(c * new_alpha, a);
    vstd::arithmetic::mul::lemma_mul_inequality(c, a, new_alpha);
    vstd::arithmetic::div_mod::lemma_div_is_ordered(c * new_alpha, a * new_alpha, a);
    vstd::arithmetic::div_mod::lemma_div_multiples_vanish(new_alpha, a);
    assert(a * new_alpha == new_alpha * a) by (nonlinear_arith);
}

/// One straight 8-bit channel premultiplied by `a_fx`.
fn premul_channel(c: u8, a_fx: i64) -> (r: i64)
    requires
        0 <= a_fx <= UNIT,
    ensures
        r == premul_u8_spec(c, a_fx as int),
{
    let straight: i64 = (c as i64) * UNIT / 255;
    proof {
        vstd::arithmetic::div_mod::lemma_div_pos_is_pos(c * UNIT, 255);
        vstd::arithmetic::mul::lemma_mul_inequality(c as int, 255, UNIT as int);
        vstd::arithmetic::div_mod::lemma_div_is_ordered(c * UNIT, 255 * UNIT, 255);
        vstd::arithmetic::div_mod::lemma_div_multiples_vanish(UNIT as int, 255);
        assert(straight <= UNIT);
        assert(straight * a_fx <= 0x1_0000_0000i64) by (nonlinear_arith)
            requires 0 <= straight <= 0x1_0000i64, 0 <= a_fx <= 0x1_0000i64,
        ;
    }
    (((straight as u64) * (a_fx as u64)) / (UNIT as u64)) as i64
}

/// The premultiplied channel stays inside its alpha.
proof fn lemma_premul_u8_wf(c: u8, a_fx: int)
    requires
        0 <= a_fx <= UNIT,
    ensures
        0 <= premul_u8_spec(c, a_fx) <= a_fx,
{
    let straight = c * UNIT / 255;
    vstd::arithmetic::div_mod::lemma_div_pos_is_pos(c * UNIT, 255);
    vstd::arithmetic::mul::lemma_mul_inequality(c as int, 255, UNIT as int);
    vstd::arithmetic::div_mod::lemma_div_is_ordered(c * UNIT, 255 * UNIT, 255);
    vstd::arithmetic::div_mod::lemma_div_multiples_vanish(UNIT as int, 255);
    assert(straight <= UNIT);
    vstd::arithmetic::div_mod::lemma_div_pos_is_pos(straight * a_fx, UNIT as int);
    vstd::arithmetic::mul::lemma_mul_inequality(straight, UNIT as int, a_fx);
    vstd::arithmetic::div_mod::lemma_div_is_ordered(straight * a_fx, UNIT * a_fx, UNIT as int);
    vstd::arithmetic::div_mod::lemma_div_multiples_vanish(a_fx, UNIT as int);
    assert(UNIT * a_fx == a_fx * UNIT) by (nonlinear_arith);
}

} // verus!
