//! Integer dirty-region rectangles.
//!
//! A rectangle covers the half-open pixel ranges `[left, right)` and
//! `[top, bottom)`. The canonical empty rectangle keeps opposing integer
//! extremes so that growing it with `expand` or `union` behaves as if it
//! covered nothing at all.

use vstd::prelude::*;

verus! {

#[derive(Debug, Clone, Copy, Default, PartialEq, Eq, Structural)]
pub struct Rect {
    pub left: i32,
    pub top: i32,
    pub right: i32,
    pub bottom: i32,
}

/// The canonical empty rectangle: opposing extreme sentinels.
pub open spec fn empty_rect() -> Rect {
    Rect { left: i32::MAX, top: i32::MAX, right: i32::MIN, bottom: i32::MIN }
}

pub open spec fn rect_is_empty(r: Rect) -> bool {
    r.left >= r.right || r.top >= r.bottom
}

/// A rectangle the rest of the crate produces: either the canonical empty
/// value or a properly ordered box.
pub open spec fn rect_wf(r: Rect) -> bool {
    r == empty_rect() || (r.left < r.right && r.top < r.bottom)
}

pub open spec fn union_spec(a: Rect, b: Rect) -> Rect {
    if rect_is_empty(b) {
        a
    } else {
        Rect {
            left: if a.left <= b.left { a.left } else { b.left },
            top: if a.top <= b.top { a.top } else { b.top },
            right: if a.right >= b.right { a.right } else { b.right },
            bottom: if a.bottom >= b.bottom { a.bottom } else { b.bottom },
        }
    }
}

/// The bounding square of a disc of the given radius centred on pixel (x, y).
pub open spec fn disc_rect(x: int, y: int, radius: int) -> Rect {
    Rect {
        left: (x - radius) as i32,
        top: (y - radius) as i32,
        right: (x + radius + 1) as i32,
        bottom: (y + radius + 1) as i32,
    }
}

pub open spec fn expand_spec(r: Rect, x: int, y: int, radius: int) -> Rect {
    Rect {
        left: if r.left <= x - radius { r.left } else { (x - radius) as i32 },
        top: if r.top <= y - radius { r.top } else { (y - radius) as i32 },
        right: if r.right >= x + radius + 1 { r.right } else { (x + radius + 1) as i32 },
        bottom: if r.bottom >= y + radius + 1 { r.bottom } else { (y + radius + 1) as i32 },
    }
}

pub open spec fn clamp_rect_spec(r: Rect, width: int, height: int) -> Rect {
    Rect {
        left: if r.left >= 0 { r.left } else { 0 },
        top: if r.top >= 0 { r.top } else { 0 },
        right: if r.right <= width { r.right } else { width as i32 },
        bottom: if r.bottom <= height { r.bottom } else { height as i32 },
    }
}

impl Rect {
    pub fn new(left: i32, top: i32, right: i32, bottom: i32) -> (r: Rect)
        ensures
            r == (Rect { left, top, right, bottom }),
    {
        Rect { left, top, right, bottom }
    }

    pub fn empty() -> (r: Rect)
        ensures
            r == empty_rect(),
            rect_wf(r),
    {
        Rect { left: i32::MAX, top: i32::MAX, right: i32::MIN, bottom: i32::MIN }
    }

    pub fn is_empty(&self) -> (e: bool)
        ensures
            e == rect_is_empty(*self),
    {
        self.left >= self.right || self.top >= self.bottom
    }

    /// Grow the box to cover the bounding square of a disc centred on
    /// pixel (x, y).
    pub fn expand(&mut self, x: i32, y: i32, radius: i32)
        requires
            -0x2000_0000 <= x <= 0x2000_0000,
            -0x2000_0000 <= y <= 0x2000_0000,
            0 <= radius <= 0x2000_0000,
        ensures
            *final(self) == expand_spec(*old(self), x as int, y as int, radius as int),
    {
        let lo_x = x - radius;
        let lo_y = y - radius;
        let hi_x = x + radius + 1;
        let hi_y = y + radius + 1;
        if lo_x < self.left {
            self.left = lo_x;
        }
        if lo_y < self.top {
            self.top = lo_y;
        }
        if hi_x > self.right {
            self.right = hi_x;
        }
        if hi_y > self.bottom {
            self.bottom = hi_y;
        }
    }

    /// Union with another box; an empty `other` leaves `self` unchanged.
    pub fn union(&mut self, other: &Rect)
        ensures
            *final(self) == union_spec(*old(self), *other),
    {
        if other.is_empty() {
            return;
        }
        if other.left < self.left {
            self.left = other.left;
        }
        if other.top < self.top {
            self.top = other.top;
        }
        if other.right > self.right {
            self.right = other.right;
        }
        if other.bottom > self.bottom {
            self.bottom = other.bottom;
        }
    }

    /// Intersect with the valid pixel range of a `width` by `height` raster.
    pub fn clamp_to(&mut self, width: i32, height: i32)
        requires
            0 <= width,
            0 <= height,
        ensures
            *final(self) == clamp_rect_spec(*old(self), width as int, height as int),
    {
        if self.left < 0 {
            self.left = 0;
        }
        if self.top < 0 {
            self.top = 0;
        }
        if self.right > width {
            self.right = width;
        }
        if self.bottom > height {
            self.bottom = height;
        }
    }
}

/// The canonical empty rectangle is a left and right identity of `union`.
pub proof fn lemma_union_identity(a: Rect)
    requires
        rect_wf(a),
    ensures
        union_spec(a, empty_rect()) == a,
        union_spec(empty_rect(), a) == a,
{
}

/// On well-formed rectangles, `union` is commutative.
pub proof fn lemma_union_commutative(a: Rect, b: Rect)
    requires
        rect_wf(a),
        rect_wf(b),
    ensures
        union_spec(a, b) == union_spec(b, a),
{
}

/// The union of well-formed rectangles is well formed, so `union` composes.
pub proof fn lemma_union_wf(a: Rect, b: Rect)
    requires
        rect_wf(a),
        rect_wf(b),
    ensures
        rect_wf(union_spec(a, b)),
{
}

/// On well-formed rectangles, `union` is associative; together with
/// identity and commutativity this makes `union` a commutative monoid
/// with the empty rectangle as its identity element.
pub proof fn lemma_union_associative(a: Rect, b: Rect, c: Rect)
    requires
        rect_wf(a),
        rect_wf(b),
        rect_wf(c),
    ensures
        union_spec(union_spec(a, b), c) == union_spec(a, union_spec(b, c)),
{
}

/// `expand` is the union with the disc's bounding square, so it fits into
/// the same monoid: expanding commutes with union and with other expands.
pub proof fn lemma_expand_is_union(r: Rect, x: int, y: int, radius: int)
    requires
        -0x2000_0000 <= x <= 0x2000_0000,
        -0x2000_0000 <= y <= 0x2000_0000,
        0 <= radius <= 0x2000_0000,
    ensures
        expand_spec(r, x, y, radius) == union_spec(r, disc_rect(x, y, radius)),
        rect_wf(disc_rect(x, y, radius)),
{
}

} // verus!
