//! The per-stroke accumulation buffer.
//!
//! Dabs are blended into this buffer with the plain "over" operator, so
//! per-dab flow compounds within a stroke. Only when the stroke ends is
//! the buffer merged into the 8-bit target, with the stroke-wide opacity
//! ceiling applied exactly once.

use vstd::prelude::*;
use crate::fixed::{
    UNIT, ALPHA_EPS, SUB, MAX_PATH_COORD, MAX_RADIUS, sqrt_floor, isqrt, scale_unit, px_floor,
    px_ceil, px_trunc, px_floor_spec, px_ceil_spec, px_trunc_spec, lemma_div_superadd,
};
use crate::pixel::{
    Pixel, pixel_wf, from_rgba_spec, to_rgba_spec, with_alpha_spec,
};
use crate::rect::{
    Rect, empty_rect, rect_is_empty, expand_spec, clamp_rect_spec,
};
use crate::blend::{normal_spec, blend_normal_premul, over_channel, lemma_over_alpha_bounds};

verus! {

/// Stroke accumulation buffer: premultiplied pixels, a dirty region, and
/// an active flag.
pub struct StrokeBuffer {
    width: u32,
    height: u32,
    data: Vec<Pixel>,
    dirty_rect: Rect,
    active: bool,
}

/// Raster sides are kept within this bound so every index computation
/// stays well inside `u32` and `usize`.
pub const MAX_SIDE: u32 = 0x8000;

impl StrokeBuffer {
    /// Structural invariant: the pixel store matches the dimensions and
    /// every pixel is a valid premultiplied value.
    pub closed spec fn wf(&self) -> bool {
        &&& self.width <= MAX_SIDE
        &&& self.height <= MAX_SIDE
        &&& self.data.len() == self.width * self.height
        &&& forall|i: int|
            0 <= i < self.data.len() ==> pixel_wf(#[trigger] self.data[i])
    }

    pub closed spec fn spec_width(&self) -> int {
        self.width as int
    }

    pub closed spec fn spec_height(&self) -> int {
        self.height as int
    }

    pub closed spec fn spec_active(&self) -> bool {
        self.active
    }

    pub closed spec fn spec_dirty(&self) -> Rect {
        self.dirty_rect
    }

    /// The pixel stored at (x, y).
    pub closed spec fn pixel_at(&self, x: int, y: int) -> Pixel {
        self.data[y * self.spec_width() + x]
    }

    pub closed spec fn all_transparent(&self) -> bool {
        forall|i: int|
            0 <= i < self.data.len()
                ==> #[trigger] self.data[i] == (Pixel { r: 0i64, g: 0i64, b: 0i64, a: 0i64 })
    }

    /// Create a buffer of transparent pixels.
    pub fn new(width: u32, height: u32) -> (buf: StrokeBuffer)
        requires
            width <= MAX_SIDE,
            height <= MAX_SIDE,
        ensures
            buf.wf(),
            buf.spec_width() == width,
            buf.spec_height() == height,
            buf.all_transparent(),
            buf.spec_dirty() == empty_rect(),
            !buf.spec_active(),
    {
        proof {
            lemma_area_bound(width as int, height as int);
        }
        let size = (width * height) as usize;
        StrokeBuffer {
            width,
            height,
            data: vec![Pixel::transparent(); size],
            dirty_rect: Rect::empty(),
            active: false,
        }
    }

    /// Resize the buffer; all content is cleared.
    pub fn resize(&mut self, width: u32, height: u32)
        requires
            width <= MAX_SIDE,
            height <= MAX_SIDE,
        ensures
            final(self).wf(),
            final(self).spec_width() == width,
            final(self).spec_height() == height,
            final(self).all_transparent(),
            final(self).spec_dirty() == empty_rect(),
            !final(self).spec_active(),
    {
        proof {
            lemma_area_bound(width as int, height as int);
        }
        let size = (width * height) as usize;
        self.width = width;
        self.height = height;
        self.data = vec![Pixel::transparent(); size];
        self.dirty_rect = Rect::empty();
        self.active = false;
    }

    /// Begin a new stroke: clear all paint, reset the dirty region, and
    /// mark the buffer active.
    pub fn begin_stroke(&mut self)
        requires
            old(self).wf(),
        ensures
            final(self).wf(),
            final(self).spec_width() == old(self).spec_width(),
            final(self).spec_height() == old(self).spec_height(),
            final(self).all_transparent(),
            final(self).spec_dirty() == empty_rect(),
            final(self).spec_active(),
    {
        self.clear();
        self.active = true;
    }

    /// Clear all pixels and the dirty region.
    pub fn clear(&mut self)
        requires
            old(self).wf(),
        ensures
            final(self).wf(),
            final(self).spec_width() == old(self).spec_width(),
            final(self).spec_height() == old(self).spec_height(),
            final(self).all_transparent(),
            final(self).spec_dirty() == empty_rect(),
            final(self).spec_active() == old(self).spec_active(),
    {
        let n = self.data.len();
        let mut i: usize = 0;
        while i < n
            invariant
                n == self.data.len(),
                i <= n,
                self.width == old(self).width,
                self.height == old(self).height,
                self.active == old(self).active,
                self.dirty_rect == old(self).dirty_rect,
                n == self.width * self.height,
                self.width <= MAX_SIDE,
                self.height <= MAX_SIDE,
                forall|j: int|
                    0 <= j < i
                        ==> #[trigger] self.data[j]
                            == (Pixel { r: 0i64, g: 0i64, b: 0i64, a: 0i64 }),
                forall|j: int| 0 <= j < n ==> pixel_wf(#[trigger] self.data[j]),
            decreases n - i,
        {
            self.data[i] = Pixel::transparent();
            i += 1;
        }
        self.dirty_rect = Rect::empty();
    }

    pub fn is_active(&self) -> (r: bool)
        ensures
            r == self.spec_active(),
    {
        self.active
    }

    /// Read the pixel at (x, y); out-of-range reads return transparent.
    pub fn get_pixel(&self, x: u32, y: u32) -> (p: Pixel)
        requires
            self.wf(),
        ensures
            x < self.spec_width() && y < self.spec_height() ==> p == self.pixel_at(
                x as int,
                y as int,
            ),
            !(x < self.spec_width() && y < self.spec_height()) ==> p == (Pixel {
                r: 0i64,
                g: 0i64,
                b: 0i64,
                a: 0i64,
            }),
            pixel_wf(p),
    {
        if x >= self.width || y >= self.height {
            return Pixel::transparent();
        }
        proof {
            lemma_index_in_range(self.width as int, self.height as int, x as int, y as int);
        }
        let idx = (y * self.width + x) as usize;
        self.data[idx]
    }

    /// Overwrite the pixel at (x, y); out-of-range writes do nothing.
    pub fn set_pixel(&mut self, x: u32, y: u32, pixel: Pixel)
        requires
            old(self).wf(),
            pixel_wf(pixel),
        ensures
            final(self).wf(),
            final(self).spec_width() == old(self).spec_width(),
            final(self).spec_height() == old(self).spec_height(),
            final(self).spec_active() == old(self).spec_active(),
            final(self).spec_dirty() == old(self).spec_dirty(),
            x < old(self).spec_width() && y < old(self).spec_height() ==> final(self).pixel_at(
                x as int,
                y as int,
            ) == pixel,
            forall|i: int, j: int|
                0 <= i < old(self).spec_width() && 0 <= j < old(self).spec_height() && !(i == x
                    && j == y) ==> #[trigger] final(self).pixel_at(i, j) == old(self).pixel_at(
                    i,
                    j,
                ),
    {
        if x >= self.width || y >= self.height {
            return;
        }
        proof {
            lemma_index_in_range(self.width as int, self.height as int, x as int, y as int);
        }
        let idx = (y * self.width + x) as usize;
        self.data[idx] = pixel;
        proof {
            assert forall|i: int, j: int|
                0 <= i < old(self).spec_width() && 0 <= j < old(self).spec_height() && !(i == x
                    && j == y) implies #[trigger] self.pixel_at(i, j) == old(self).pixel_at(
                i,
                j,
            ) by {
                lemma_index_in_range(self.width as int, self.height as int, i, j);
                lemma_index_distinct(
                    self.width as int,
                    self.height as int,
                    i,
                    j,
                    x as int,
                    y as int,
                );
            };
        }
    }

    /// Blend a pixel over the buffer's current content at (x, y);
    /// out-of-range writes do nothing.
    pub fn blend_pixel(&mut self, x: u32, y: u32, src: Pixel)
        requires
            old(self).wf(),
            pixel_wf(src),
        ensures
            final(self).wf(),
            final(self).spec_width() == old(self).spec_width(),
            final(self).spec_height() == old(self).spec_height(),
            final(self).spec_active() == old(self).spec_active(),
            final(self).spec_dirty() == old(self).spec_dirty(),
            x < old(self).spec_width() && y < old(self).spec_height() ==> final(self).pixel_at(
                x as int,
                y as int,
            ) == normal_pixel(src, old(self).pixel_at(x as int, y as int)),
            forall|i: int, j: int|
                0 <= i < old(self).spec_width() && 0 <= j < old(self).spec_height() && !(i == x
                    && j == y) ==> #[trigger] final(self).pixel_at(i, j) == old(self).pixel_at(
                    i,
                    j,
                ),
    {
        if x >= self.width || y >= self.height {
            return;
        }
        proof {
            lemma_index_in_range(self.width as int, self.height as int, x as int, y as int);
        }
        let idx = (y * self.width + x) as usize;
        let blended = blend_normal_premul(src, self.data[idx]);
        self.data[idx] = blended;
        proof {
            assert forall|i: int, j: int|
                0 <= i < old(self).spec_width() && 0 <= j < old(self).spec_height() && !(i == x
                    && j == y) implies #[trigger] self.pixel_at(i, j) == old(self).pixel_at(
                i,
                j,
            ) by {
                lemma_index_in_range(self.width as int, self.height as int, i, j);
                lemma_index_distinct(
                    self.width as int,
                    self.height as int,
                    i,
                    j,
                    x as int,
                    y as int,
                );
            };
        }
    }

    /// Stamp a filled disc of the given radius, straight color and
    /// hardness onto the buffer, blending it over the current content.
    /// Every pixel of the disc's bounding box is described pointwise;
    /// everything else is untouched. The dirty region grows by the
    /// disc's bounding square whether or not any ink landed.
    #[verifier::loop_isolation(false)]
    pub fn stamp_dab(
        &mut self,
        cx: i64,
        cy: i64,
        radius: i64,
        color: [i64; 3],
        alpha: i64,
        hardness: i64,
    )
        requires
            old(self).wf(),
            -MAX_PATH_COORD <= cx <= MAX_PATH_COORD,
            -MAX_PATH_COORD <= cy <= MAX_PATH_COORD,
            0 <= radius <= MAX_RADIUS,
            0 <= alpha <= UNIT,
            0 <= hardness <= UNIT,
            0 <= color[0] <= UNIT,
            0 <= color[1] <= UNIT,
            0 <= color[2] <= UNIT,
        ensures
            final(self).wf(),
            final(self).spec_width() == old(self).spec_width(),
            final(self).spec_height() == old(self).spec_height(),
            final(self).spec_active() == old(self).spec_active(),
            final(self).spec_dirty() == expand_spec(
                old(self).spec_dirty(),
                px_trunc_spec(cx as int),
                px_trunc_spec(cy as int),
                px_ceil_spec(eff_radius(radius as int)),
            ),
            forall|x: int, y: int|
                0 <= x < old(self).spec_width() && 0 <= y < old(self).spec_height()
                    ==> #[trigger] final(self).pixel_at(x, y) == (if in_dab_bbox(
                    x,
                    y,
                    cx as int,
                    cy as int,
                    eff_radius(radius as int),
                ) {
                    stamped_pixel(
                        old(self).pixel_at(x, y),
                        color[0] as int,
                        color[1] as int,
                        color[2] as int,
                        dab_contribution(
                            x,
                            y,
                            cx as int,
                            cy as int,
                            eff_radius(radius as int),
                            alpha as int,
                            hardness as int,
                        ),
                    )
                } else {
                    old(self).pixel_at(x, y)
                }),
    {
        let r = if radius < SUB / 2 {
            SUB / 2
        } else {
            radius
        };
        let left = px_floor(cx - r);
        let top = px_floor(cy - r);
        let right = px_ceil(cx + r);
        let bottom = px_ceil(cy + r);
        let cpx = px_trunc(cx);
        let cpy = px_trunc(cy);
        let rceil = px_ceil(r);
        self.dirty_rect.expand(cpx as i32, cpy as i32, rceil as i32);
        let w = self.width as i64;
        let h = self.height as i64;
        let mut py = top;
        while py <= bottom
            invariant
                self.wf(),
                self.width == old(self).width,
                self.height == old(self).height,
                self.active == old(self).active,
                self.dirty_rect == expand_spec(
                    old(self).spec_dirty(),
                    px_trunc_spec(cx as int),
                    px_trunc_spec(cy as int),
                    px_ceil_spec(r as int),
                ),
                w == self.spec_width(),
                h == self.spec_height(),
                top <= py <= bottom + 1,
                forall|x: int, y: int|
                    0 <= x < w && 0 <= y < h ==> #[trigger] self.pixel_at(x, y) == (if in_dab_bbox(
                        x,
                        y,
                        cx as int,
                        cy as int,
                        r as int,
                    ) && y < py {
                        stamped_pixel(
                            old(self).pixel_at(x, y),
                            color[0] as int,
                            color[1] as int,
                            color[2] as int,
                            dab_contribution(
                                x,
                                y,
                                cx as int,
                                cy as int,
                                r as int,
                                alpha as int,
                                hardness as int,
                            ),
                        )
                    } else {
                        old(self).pixel_at(x, y)
                    }),
            decreases bottom + 1 - py,
        {
            if py >= 0 && py < h {
                let mut px = left;
                while px <= right
                    invariant
                        self.wf(),
                        self.width == old(self).width,
                        self.height == old(self).height,
                        self.active == old(self).active,
                        self.dirty_rect == expand_spec(
                            old(self).spec_dirty(),
                            px_trunc_spec(cx as int),
                            px_trunc_spec(cy as int),
                            px_ceil_spec(r as int),
                        ),
                        w == self.spec_width(),
                        h == self.spec_height(),
                        top <= py <= bottom,
                        0 <= py < h,
                        left <= px <= right + 1,
                        forall|x: int, y: int|
                            0 <= x < w && 0 <= y < h ==> #[trigger] self.pixel_at(x, y) == (
                            if in_dab_bbox(x, y, cx as int, cy as int, r as int) && (y < py || (y
                                == py && x < px)) {
                                stamped_pixel(
                                    old(self).pixel_at(x, y),
                                    color[0] as int,
                                    color[1] as int,
                                    color[2] as int,
                                    dab_contribution(
                                        x,
                                        y,
                                        cx as int,
                                        cy as int,
                                        r as int,
                                        alpha as int,
                                        hardness as int,
                                    ),
                                )
                            } else {
                                old(self).pixel_at(x, y)
                            }),
                    decreases right + 1 - px,
                {
                    if px >= 0 && px < w {
                        self.stamp_one(px, py, cx, cy, r, color, alpha, hardness);
                    }
                    px += 1;
                }
            }
            py += 1;
        }
    }

    /// Deposit the dab's contribution on one in-range pixel.
    fn stamp_one(
        &mut self,
        px: i64,
        py: i64,
        cx: i64,
        cy: i64,
        r: i64,
        color: [i64; 3],
        alpha: i64,
        hardness: i64,
    )
        requires
            old(self).wf(),
            0 <= px < old(self).spec_width(),
            0 <= py < old(self).spec_height(),
            -MAX_PATH_COORD <= cx <= MAX_PATH_COORD,
            -MAX_PATH_COORD <= cy <= MAX_PATH_COORD,
            SUB / 2 <= r <= MAX_RADIUS,
            0 <= alpha <= UNIT,
            0 <= hardness <= UNIT,
            0 <= color[0] <= UNIT,
            0 <= color[1] <= UNIT,
            0 <= color[2] <= UNIT,
        ensures
            final(self).wf(),
            final(self).spec_width() == old(self).spec_width(),
            final(self).spec_height() == old(self).spec_height(),
            final(self).spec_active() == old(self).spec_active(),
            final(self).spec_dirty() == old(self).spec_dirty(),
            final(self).pixel_at(px as int, py as int) == stamped_pixel(
                old(self).pixel_at(px as int, py as int),
                color[0] as int,
                color[1] as int,
                color[2] as int,
                dab_contribution(
                    px as int,
                    py as int,
                    cx as int,
                    cy as int,
                    r as int,
                    alpha as int,
                    hardness as int,
                ),
            ),
            forall|i: int, j: int|
                0 <= i < old(self).spec_width() && 0 <= j < old(self).spec_height() && !(i == px
                    && j == py) ==> #[trigger] final(self).pixel_at(i, j) == old(self).pixel_at(
                    i,
                    j,
                ),
    {
        let dx = px * SUB + SUB / 2 - cx;
        let dy = py * SUB + SUB / 2 - cy;
        proof {
            assert(dx * dx <= 0x1000_0000_0000_0000i64 && dy * dy <= 0x1000_0000_0000_0000i64
                && dx * dx >= 0 && dy * dy >= 0) by (nonlinear_arith)
                requires
                    -0x3000_0000 <= dx <= 0x3000_0000,
                    -0x3000_0000 <= dy <= 0x3000_0000,
            ;
        }
        let dsq = dx * dx + dy * dy;
        let dist = isqrt(dsq as u64) as i64;
        let ghost deposit = dab_contribution(
            px as int,
            py as int,
            cx as int,
            cy as int,
            r as int,
            alpha as int,
            hardness as int,
        );
        if dist > r {
            proof {
                assert(deposit == 0);
            }
            return;
        }
        let inner = radius_inner(r, hardness);
        let fade = r - inner;
        let da = if dist <= inner {
            alpha
        } else if fade > 0 {
            fade_alpha(alpha, fade - (dist - inner), fade)
        } else {
            alpha
        };
        if da < ALPHA_EPS {
            proof {
                assert(deposit == 0);
            }
            return;
        }
        proof {
            assert(deposit == da);
        }
        let src = Pixel {
            r: scale_unit(color[0], da),
            g: scale_unit(color[1], da),
            b: scale_unit(color[2], da),
            a: da,
        };
        proof {
            assert(src == dab_source(color[0] as int, color[1] as int, color[2] as int, deposit));
        }
        self.blend_pixel(px as u32, py as u32, src);
    }

    /// End the stroke: merge the buffer into a row-major straight-alpha
    /// 8-bit RGBA target under the opacity ceiling, and return the
    /// region that was merged. When no stroke is active this does
    /// nothing and returns the empty rectangle. Every merged byte is
    /// pinned by `end_merged_byte`; `lemma_end_stroke_alpha_ceiling`
    /// bounds how far the ceiling lets any alpha rise.
    #[verifier::loop_isolation(false)]
    pub fn end_stroke(&mut self, layer: &mut Vec<u8>, opacity: i64) -> (result: Rect)
        requires
            old(self).wf(),
            0 <= opacity <= UNIT,
        ensures
            final(self).wf(),
            !old(self).spec_active() ==> *final(self) == *old(self) && *final(layer) == *old(layer)
                && result == empty_rect(),
            old(self).spec_active() ==> {
                let rect = clamp_rect_spec(
                    old(self).spec_dirty(),
                    old(self).spec_width(),
                    old(self).spec_height(),
                );
                &&& !final(self).spec_active()
                &&& final(self).spec_width() == old(self).spec_width()
                &&& final(self).spec_height() == old(self).spec_height()
                &&& final(self).spec_dirty() == old(self).spec_dirty()
                &&& forall|x: int, y: int|
                    0 <= x < old(self).spec_width() && 0 <= y < old(self).spec_height()
                        ==> #[trigger] final(self).pixel_at(x, y) == old(self).pixel_at(x, y)
                &&& rect_is_empty(rect) ==> *final(layer) == *old(layer) && result == empty_rect()
                &&& !rect_is_empty(rect) ==> {
                    &&& result == rect
                    &&& final(layer)@.len() == old(layer)@.len()
                    &&& forall|j: int|
                        0 <= j < old(layer)@.len() ==> #[trigger] final(layer)@[j]
                            == end_merged_byte(
                            *old(self),
                            old(layer)@,
                            opacity as int,
                            rect,
                            j,
                        )
                }
            },
    {
        if !self.active {
            return Rect::empty();
        }
        let mut rect = self.dirty_rect;
        rect.clamp_to(self.width as i32, self.height as i32);
        if rect.is_empty() {
            self.active = false;
            return Rect::empty();
        }
        let len = layer.len();
        let ghost rect_g = rect;
        let mut y = rect.top as i64;
        while y < rect.bottom as i64
            invariant
                self == old(self),
                rect.top <= y <= rect.bottom,
                layer.len() == len,
                forall|j: int|
                    0 <= j < len ==> #[trigger] layer[j] == (if byte_done(
                        *old(self),
                        rect_g,
                        y as int,
                        rect_g.left as int,
                        j,
                    ) {
                        end_merged_byte(*old(self), old(layer)@, opacity as int, rect_g, j)
                    } else {
                        old(layer)@[j]
                    }),
            decreases rect.bottom as int - y,
        {
            let mut x = rect.left as i64;
            while x < rect.right as i64
                invariant
                    self == old(self),
                    rect.top <= y < rect.bottom,
                    rect.left <= x <= rect.right,
                    layer.len() == len,
                    forall|j: int|
                        0 <= j < len ==> #[trigger] layer[j] == (if byte_done(
                            *old(self),
                            rect_g,
                            y as int,
                            x as int,
                            j,
                        ) {
                            end_merged_byte(*old(self), old(layer)@, opacity as int, rect_g, j)
                        } else {
                            old(layer)@[j]
                        }),
                decreases rect.right as int - x,
            {
                self.merge_one(layer, x, y, opacity, Ghost(rect_g), Ghost(old(layer)@));
                x += 1;
            }
            y += 1;
        }
        self.active = false;
        rect
    }

    /// Merge the stroke pixel at (x, y) into the layer bytes.
    #[verifier::rlimit(100)]
    fn merge_one(
        &self,
        layer: &mut Vec<u8>,
        x: i64,
        y: i64,
        opacity: i64,
        Ghost(rect_g): Ghost<Rect>,
        Ghost(layer0): Ghost<Seq<u8>>,
    )
        requires
            self.wf(),
            0 <= opacity <= UNIT,
            rect_g.left <= x < rect_g.right,
            rect_g.top <= y < rect_g.bottom,
            0 <= rect_g.left,
            0 <= rect_g.top,
            rect_g.right <= self.spec_width(),
            rect_g.bottom <= self.spec_height(),
            forall|j: int|
                0 <= j < old(layer)@.len() ==> #[trigger] old(layer)@[j] == (if byte_done(
                    *self,
                    rect_g,
                    y as int,
                    x as int,
                    j,
                ) {
                    end_merged_byte(*self, layer0, opacity as int, rect_g, j)
                } else {
                    layer0[j]
                }),
            old(layer)@.len() == layer0.len(),
        ensures
            final(layer)@.len() == old(layer)@.len(),
            forall|j: int|
                0 <= j < old(layer)@.len() ==> #[trigger] final(layer)@[j] == (if byte_done(
                    *self,
                    rect_g,
                    y as int,
                    x as int + 1,
                    j,
                ) {
                    end_merged_byte(*self, layer0, opacity as int, rect_g, j)
                } else {
                    layer0[j]
                }),
    {
        proof {
            lemma_index_in_range(self.spec_width(), self.spec_height(), x as int, y as int);
            vstd::arithmetic::div_mod::lemma_fundamental_div_mod_converse(
                y * self.spec_width() + x,
                self.spec_width(),
                y as int,
                x as int,
            );
        }
        let idx = (y as usize) * (self.width as usize) + (x as usize);
        let ghost idx0 = idx as int;
        let ghost w = self.spec_width();
        proof {
            lemma_byte_slot(idx0);
        }
        let sp = self.data[idx];
        let li = idx * 4;
        proof {
            assert(sp == self.pixel_at(x as int, y as int));
            assert(!byte_done(*self, rect_g, y as int, x as int, 4 * idx0));
            assert(!byte_done(*self, rect_g, y as int, x as int, 4 * idx0 + 1));
            assert(!byte_done(*self, rect_g, y as int, x as int, 4 * idx0 + 2));
            assert(!byte_done(*self, rect_g, y as int, x as int, 4 * idx0 + 3));
        }
        if sp.a >= ALPHA_EPS && li + 3 < layer.len() {
            proof {
                assert(old(layer)@[4 * idx0] == layer0[4 * idx0]);
                assert(old(layer)@[4 * idx0 + 1] == layer0[4 * idx0 + 1]);
                assert(old(layer)@[4 * idx0 + 2] == layer0[4 * idx0 + 2]);
                assert(old(layer)@[4 * idx0 + 3] == layer0[4 * idx0 + 3]);
            }
            let capped = if sp.a <= opacity {
                sp.a
            } else {
                opacity
            };
            let clamped = sp.with_alpha(capped);
            let lp = Pixel::from_rgba_u8(layer[li], layer[li + 1], layer[li + 2], layer[li + 3]);
            let out = blend_normal_premul(clamped, lp);
            let q = out.to_rgba_u8();
            proof {
                assert(out == normal_pixel(clamped, lp));
            }
            layer[li] = q.0;
            layer[li + 1] = q.1;
            layer[li + 2] = q.2;
            layer[li + 3] = q.3;
            proof {
                let ghost t = merged_pixel_bytes(
                    sp,
                    opacity as int,
                    layer0[4 * idx0],
                    layer0[4 * idx0 + 1],
                    layer0[4 * idx0 + 2],
                    layer0[4 * idx0 + 3],
                );
                assert(t == (q.0 as int, q.1 as int, q.2 as int, q.3 as int));
                assert forall|j: int| 0 <= j < layer0.len() implies #[trigger] layer@[j] == (
                if byte_done(*self, rect_g, y as int, x as int + 1, j) {
                    end_merged_byte(*self, layer0, opacity as int, rect_g, j)
                } else {
                    layer0[j]
                }) by {
                    lemma_byte_in_slot(idx0, j);
                    let jd = j / 4;
                    vstd::arithmetic::div_mod::lemma_fundamental_div_mod(j, 4);
                    if jd == idx0 {
                        assert(jd == (y as int) * w + (x as int));
                        vstd::arithmetic::div_mod::lemma_fundamental_div_mod_converse(
                            jd,
                            w,
                            y as int,
                            x as int,
                        );
                        assert(jd % w == x as int && jd / w == y as int);
                    } else {
                        if jd % w == x as int && jd / w == y as int {
                            vstd::arithmetic::div_mod::lemma_fundamental_div_mod(jd, w);
                            assert(w * (jd / w) == (jd / w) * w) by (nonlinear_arith);
                            assert(jd == (y as int) * w + (x as int));
                            assert(false);
                        }
                    }
                };
            }
        } else {
            proof {
                assert forall|j: int| 0 <= j < layer0.len() implies #[trigger] layer@[j] == (
                if byte_done(*self, rect_g, y as int, x as int + 1, j) {
                    end_merged_byte(*self, layer0, opacity as int, rect_g, j)
                } else {
                    layer0[j]
                }) by {
                    lemma_byte_in_slot(idx0, j);
                    let jd = j / 4;
                    vstd::arithmetic::div_mod::lemma_fundamental_div_mod(j, 4);
                    if jd == idx0 {
                        assert(jd == (y as int) * w + (x as int));
                        vstd::arithmetic::div_mod::lemma_fundamental_div_mod_converse(
                            jd,
                            w,
                            y as int,
                            x as int,
                        );
                        assert(jd % w == x as int && jd / w == y as int);
                    } else {
                        if jd % w == x as int && jd / w == y as int {
                            vstd::arithmetic::div_mod::lemma_fundamental_div_mod(jd, w);
                            assert(w * (jd / w) == (jd / w) * w) by (nonlinear_arith);
                            assert(jd == (y as int) * w + (x as int));
                            assert(false);
                        }
                    }
                };
            }
        }
    }

    /// The region touched since the stroke began.
    pub fn dirty_rect(&self) -> (r: Rect)
        ensures
            r == self.spec_dirty(),
    {
        self.dirty_rect
    }

    pub fn dimensions(&self) -> (d: (u32, u32))
        ensures
            d.0 == self.spec_width(),
            d.1 == self.spec_height(),
    {
        (self.width, self.height)
    }
}

/// Radius floored at half a pixel, so a dab always covers something and
/// spacing thresholds never collapse to zero.
pub open spec fn eff_radius(radius: int) -> int {
    if radius < SUB / 2 {
        SUB / 2
    } else {
        radius
    }
}

/// The pixel rows and columns of the disc's bounding box.
pub open spec fn in_dab_bbox(x: int, y: int, cx: int, cy: int, r: int) -> bool {
    &&& px_floor_spec(cx - r) <= x <= px_ceil_spec(cx + r)
    &&& px_floor_spec(cy - r) <= y <= px_ceil_spec(cy + r)
}

/// The falloff alpha a dab deposits on the centre of pixel (px, py):
/// full alpha within `r * hardness` of the centre, a linear fade from
/// there to the rim, nothing outside the disc or wherever the faded
/// alpha drops below `ALPHA_EPS`.
pub open spec fn dab_contribution(
    px: int,
    py: int,
    cx: int,
    cy: int,
    r: int,
    alpha: int,
    hardness: int,
) -> int {
    let dx = px * SUB + SUB / 2 - cx;
    let dy = py * SUB + SUB / 2 - cy;
    let dist = sqrt_floor((dx * dx + dy * dy) as nat) as int;
    if dist > r {
        0
    } else {
        let inner = r * hardness / (UNIT as int);
        let fade = r - inner;
        let raw = if dist <= inner {
            alpha
        } else if fade > 0 {
            alpha * (fade - (dist - inner)) / fade
        } else {
            alpha
        };
        if raw < ALPHA_EPS {
            0
        } else {
            raw
        }
    }
}

/// The premultiplied source pixel a dab deposits: the straight color
/// scaled by the contribution.
pub open spec fn dab_source(cr: int, cg: int, cb: int, deposit: int) -> Pixel {
    Pixel {
        r: (cr * deposit / (UNIT as int)) as i64,
        g: (cg * deposit / (UNIT as int)) as i64,
        b: (cb * deposit / (UNIT as int)) as i64,
        a: deposit as i64,
    }
}

/// What stamping leaves at one pixel: unchanged where the dab deposits
/// nothing, otherwise the dab source blended over the old value.
pub open spec fn stamped_pixel(p: Pixel, cr: int, cg: int, cb: int, deposit: int) -> Pixel {
    if deposit == 0 {
        p
    } else {
        normal_pixel(dab_source(cr, cg, cb, deposit), p)
    }
}

/// `r * hardness / UNIT`: the fully opaque core radius.
fn radius_inner(r: i64, hardness: i64) -> (inner: i64)
    requires
        0 <= r <= MAX_RADIUS,
        0 <= hardness <= UNIT,
    ensures
        inner == r * hardness / (UNIT as int),
        0 <= inner <= r,
{
    proof {
        vstd::arithmetic::div_mod::lemma_div_pos_is_pos(r * hardness, UNIT as int);
        assert(r * hardness <= r * (UNIT as int) && r * hardness <= 0x1_0000_0000_0000i64)
            by (nonlinear_arith)
            requires
                0 <= r <= 0x100_0000i64,
                0 <= hardness <= 0x1_0000i64,
        ;
        assert(r * (UNIT as int) == (UNIT as int) * r) by (nonlinear_arith);
        vstd::arithmetic::div_mod::lemma_div_is_ordered(
            r * hardness,
            r * (UNIT as int),
            UNIT as int,
        );
        vstd::arithmetic::div_mod::lemma_div_multiples_vanish(r as int, UNIT as int);
    }
    (((r as u64) * (hardness as u64)) / (UNIT as u64)) as i64
}

/// `alpha * num / fade`: the linear rim falloff.
fn fade_alpha(alpha: i64, num: i64, fade: i64) -> (da: i64)
    requires
        0 <= num <= fade,
        0 < fade <= MAX_RADIUS,
        0 <= alpha <= UNIT,
    ensures
        da == alpha * num / (fade as int),
        0 <= da <= alpha,
{
    proof {
        vstd::arithmetic::div_mod::lemma_div_pos_is_pos(alpha * num, fade as int);
        assert(alpha * num <= alpha * fade && alpha * num <= 0x1_0000_0000_0000i64)
            by (nonlinear_arith)
            requires
                0 <= num <= fade <= 0x100_0000i64,
                0 <= alpha <= 0x1_0000i64,
        ;
        assert(alpha * fade == fade * alpha) by (nonlinear_arith);
        vstd::arithmetic::div_mod::lemma_div_is_ordered(alpha * num, alpha * fade, fade as int);
        vstd::arithmetic::div_mod::lemma_div_multiples_vanish(alpha as int, fade as int);
    }
    (((alpha as u64) * (num as u64)) / (fade as u64)) as i64
}

/// Whether byte `j` of the layer belongs to a rect pixel that the merge
/// sweep has already passed, sweeping rows top to bottom and each row
/// left to right up to (but not including) column `x` of row `y`.
pub open spec fn byte_done(buf: StrokeBuffer, rect: Rect, y: int, x: int, j: int) -> bool {
    let idx = j / 4;
    let xx = idx % buf.spec_width();
    let yy = idx / buf.spec_width();
    &&& rect.left <= xx < rect.right
    &&& rect.top <= yy < rect.bottom
    &&& (yy < y || (yy == y && xx < x))
}

/// The four straight 8-bit values left where one stroke pixel is merged:
/// its alpha capped at the opacity ceiling, blended over the old layer
/// pixel with the "over" operator.
pub open spec fn merged_pixel_bytes(
    sp: Pixel,
    opacity: int,
    b0: u8,
    b1: u8,
    b2: u8,
    b3: u8,
) -> (int, int, int, int) {
    let capped = if sp.a <= opacity {
        sp.a as int
    } else {
        opacity
    };
    to_rgba_spec(normal_pixel(with_alpha_spec(sp, capped), from_rgba_spec(b0, b1, b2, b3)))
}

/// Byte `j` of the layer after the merge: changed only for bytes of rect
/// pixels whose stroke alpha is visible and whose slot lies inside the
/// layer.
pub open spec fn end_merged_byte(
    buf: StrokeBuffer,
    layer: Seq<u8>,
    opacity: int,
    rect: Rect,
    j: int,
) -> u8 {
    let idx = j / 4;
    let xx = idx % buf.spec_width();
    let yy = idx / buf.spec_width();
    let sp = buf.pixel_at(xx, yy);
    if rect.left <= xx < rect.right && rect.top <= yy < rect.bottom && sp.a >= ALPHA_EPS && 4 * idx
        + 3 < layer.len() {
        let t = merged_pixel_bytes(
            sp,
            opacity,
            layer[4 * idx],
            layer[4 * idx + 1],
            layer[4 * idx + 2],
            layer[4 * idx + 3],
        );
        (if j % 4 == 0 {
            t.0
        } else if j % 4 == 1 {
            t.1
        } else if j % 4 == 2 {
            t.2
        } else {
            t.3
        }) as u8
    } else {
        layer[j]
    }
}

/// Merging a stroke never raises the alpha byte of any layer pixel by
/// more than the opacity ceiling, up to one step of 8-bit rounding: the
/// merged alpha byte stays within `opacity * 255 / UNIT + 1` of the old
/// one. On a fully transparent layer pixel the merged alpha byte never
/// exceeds the ceiling at all.
pub proof fn lemma_end_stroke_alpha_ceiling(
    buf: StrokeBuffer,
    layer: Seq<u8>,
    opacity: int,
    rect: Rect,
    j: int,
)
    requires
        buf.wf(),
        0 <= opacity <= UNIT,
        0 <= j < layer.len(),
        j % 4 == 3,
        0 <= rect.left,
        0 <= rect.top,
        rect.right <= buf.spec_width(),
        rect.bottom <= buf.spec_height(),
    ensures
        end_merged_byte(buf, layer, opacity, rect, j) <= layer[j] + opacity * 255 / (UNIT as int)
            + 1,
        layer[j] == 0 ==> end_merged_byte(buf, layer, opacity, rect, j) <= opacity * 255 / (
        UNIT as int) + 1,
{
    let u = UNIT as int;
    let idx = j / 4;
    let xx = idx % buf.spec_width();
    let yy = idx / buf.spec_width();
    let sp = buf.pixel_at(xx, yy);
    vstd::arithmetic::div_mod::lemma_fundamental_div_mod(j, 4);
    vstd::arithmetic::div_mod::lemma_div_pos_is_pos(opacity * 255, u);
    if rect.left <= xx < rect.right && rect.top <= yy < rect.bottom && sp.a >= ALPHA_EPS && 4 * idx
        + 3 < layer.len() {
        assert(j == 4 * idx + 3);
        let b3 = layer[4 * idx + 3];
        lemma_index_in_range(buf.spec_width(), buf.spec_height(), xx, yy);
        assert(pixel_wf(sp));
        let capped = if sp.a <= opacity {
            sp.a as int
        } else {
            opacity
        };
        let clamped = with_alpha_spec(sp, capped);
        let lp = from_rgba_spec(
            layer[4 * idx],
            layer[4 * idx + 1],
            layer[4 * idx + 2],
            layer[4 * idx + 3],
        );
        crate::pixel::lemma_with_alpha_wf(sp, capped);
        crate::pixel::lemma_from_rgba_wf(
            layer[4 * idx],
            layer[4 * idx + 1],
            layer[4 * idx + 2],
            layer[4 * idx + 3],
        );
        lemma_over_alpha_bounds(clamped.a as int, lp.a as int);
        let out = normal_pixel(clamped, lp);
        assert(out.a == over_channel(clamped.a as int, lp.a as int, clamped.a as int));
        assert(out.a <= capped + lp.a);
        assert(0 <= out.a <= UNIT);
        let t = to_rgba_spec(out);
        if out.a < ALPHA_EPS {
            assert(t.3 == 0);
        } else {
            assert(t.3 == (out.a as int) * 255 / u);
            vstd::arithmetic::mul::lemma_mul_inequality(
                out.a as int,
                capped + lp.a,
                255,
            );
            assert((out.a as int) * 255 == 255 * (out.a as int)) by (nonlinear_arith);
            assert((capped + lp.a) * 255 == 255 * (capped + lp.a)) by (nonlinear_arith);
            vstd::arithmetic::div_mod::lemma_div_is_ordered(
                (out.a as int) * 255,
                (capped + lp.a) * 255,
                u,
            );
            assert((capped + lp.a) * 255 == capped * 255 + (lp.a as int) * 255)
                by (nonlinear_arith);
            lemma_div_superadd(capped * 255, (lp.a as int) * 255, u);
            // the layer alpha scaled down and back up never exceeds the byte
            assert(lp.a == b3 * UNIT / 255);
            vstd::arithmetic::div_mod::lemma_fundamental_div_mod(b3 * UNIT, 255);
            vstd::arithmetic::div_mod::lemma_mod_bound(b3 * UNIT, 255);
            assert((lp.a as int) * 255 <= b3 * UNIT) by (nonlinear_arith)
                requires (lp.a as int) == (b3 * UNIT) / 255, b3 * UNIT == 255 * ((b3 * UNIT) / 255) + (b3 * UNIT) % 255, 0 <= (b3 * UNIT) % 255,
            ;
            assert(b3 * UNIT == u * (b3 as int)) by (nonlinear_arith)
                requires u == UNIT as int,
            ;
            vstd::arithmetic::div_mod::lemma_div_is_ordered((lp.a as int) * 255, u * b3, u);
            vstd::arithmetic::div_mod::lemma_div_multiples_vanish(b3 as int, u);
            // the capped alpha scaled to a byte stays within the ceiling
            vstd::arithmetic::mul::lemma_mul_inequality(capped, opacity, 255);
            vstd::arithmetic::div_mod::lemma_div_is_ordered(capped * 255, opacity * 255, u);
            assert(t.3 <= b3 + opacity * 255 / u + 1);
        }
    }
}

/// The four bytes of pixel slot `idx` are exactly those `j` with
/// `j / 4 == idx`, in component order.
proof fn lemma_byte_slot(idx: int)
    requires
        0 <= idx,
    ensures
        (4 * idx) / 4 == idx && (4 * idx) % 4 == 0,
        (4 * idx + 1) / 4 == idx && (4 * idx + 1) % 4 == 1,
        (4 * idx + 2) / 4 == idx && (4 * idx + 2) % 4 == 2,
        (4 * idx + 3) / 4 == idx && (4 * idx + 3) % 4 == 3,
{
    vstd::arithmetic::div_mod::lemma_fundamental_div_mod_converse(4 * idx, 4, idx, 0);
    vstd::arithmetic::div_mod::lemma_fundamental_div_mod_converse(4 * idx + 1, 4, idx, 1);
    vstd::arithmetic::div_mod::lemma_fundamental_div_mod_converse(4 * idx + 2, 4, idx, 2);
    vstd::arithmetic::div_mod::lemma_fundamental_div_mod_converse(4 * idx + 3, 4, idx, 3);
}

/// A byte with `j / 4 == idx` lies in slot `idx`, and conversely.
proof fn lemma_byte_in_slot(idx: int, j: int)
    requires
        0 <= idx,
        0 <= j,
    ensures
        j / 4 == idx <==> 4 * idx <= j <= 4 * idx + 3,
{
    vstd::arithmetic::div_mod::lemma_fundamental_div_mod(j, 4);
    if 4 * idx <= j <= 4 * idx + 3 {
        vstd::arithmetic::div_mod::lemma_fundamental_div_mod_converse(j, 4, idx, j - 4 * idx);
    }
}

/// The "over" operator as a whole pixel; on well-formed inputs the casts
/// are exact.
pub open spec fn normal_pixel(src: Pixel, dst: Pixel) -> Pixel {
    let t = normal_spec(src, dst);
    Pixel { r: t.0 as i64, g: t.1 as i64, b: t.2 as i64, a: t.3 as i64 }
}

/// The pixel count of a bounded raster fits comfortably in `u32`.
proof fn lemma_area_bound(width: int, height: int)
    requires
        0 <= width <= MAX_SIDE,
        0 <= height <= MAX_SIDE,
    ensures
        width * height <= 0x4000_0000,
        0 <= width * height,
{
    assert(width * height <= 0x4000_0000 && 0 <= width * height) by (nonlinear_arith)
        requires
            0 <= width <= 0x8000,
            0 <= height <= 0x8000,
    ;
}

/// Distinct in-range coordinates have distinct row-major indices.
proof fn lemma_index_distinct(width: int, height: int, i: int, j: int, x: int, y: int)
    requires
        0 <= i < width,
        0 <= j < height,
        0 <= x < width,
        0 <= y < height,
        !(i == x && j == y),
    ensures
        j * width + i != y * width + x,
{
    if j != y {
        assert(j * width + i != y * width + x) by (nonlinear_arith)
            requires
                0 <= i < width,
                0 <= x < width,
                j != y,
        ;
    }
}

/// In a raster bounded by `MAX_SIDE`, the row-major index is in range.
proof fn lemma_index_in_range(width: int, height: int, x: int, y: int)
    requires
        0 <= x < width,
        0 <= y < height,
        width <= MAX_SIDE,
        height <= MAX_SIDE,
    ensures
        0 <= y * width + x < width * height,
        y * width + x < 0x4000_0000,
{
    assert(y * width + x < width * height && y * width + x < 0x4000_0000) by (nonlinear_arith)
        requires
            0 <= x < width,
            0 <= y < height,
            width <= 0x8000,
            height <= 0x8000,
    ;
    assert(y * width >= 0) by (nonlinear_arith)
        requires y >= 0, width >= 0,
    ;
}

} // verus!
