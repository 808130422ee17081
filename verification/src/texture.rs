//! Brush texture utilities.
//!
//! Brush textures arrive as 8-bit grayscale opacity masks, but not all
//! sources agree on which end of the scale is opaque. These helpers
//! detect an inverted mask and normalise it to 255 = opaque.

use vstd::prelude::*;

verus! {

/// An 8-bit grayscale image in row-major order.
pub struct GrayscaleImage {
    pub width: u32,
    pub height: u32,
    pub data: Vec<u8>,
}

pub open spec fn image_wf(img: GrayscaleImage) -> bool {
    &&& img.width <= 0x8000
    &&& img.height <= 0x8000
    &&& img.data.len() == img.width * img.height
}

impl GrayscaleImage {
    pub fn new(width: u32, height: u32, data: Vec<u8>) -> (img: GrayscaleImage)
        requires
            width <= 0x8000,
            height <= 0x8000,
            data.len() == width * height,
        ensures
            img.width == width,
            img.height == height,
            img.data == data,
            image_wf(img),
    {
        GrayscaleImage { width, height, data }
    }

    /// The pixel at (x, y), or nothing outside the image.
    pub fn get_pixel(&self, x: u32, y: u32) -> (p: Option<u8>)
        requires
            image_wf(*self),
        ensures
            x < self.width && y < self.height ==> p == Some(
                self.data[y * self.width + x],
            ),
            !(x < self.width && y < self.height) ==> p is None,
    {
        if x >= self.width || y >= self.height {
            return None;
        }
        proof {
            lemma_texel_in_range(self.width as int, self.height as int, x as int, y as int);
        }
        let idx = (y * self.width + x) as usize;
        Some(self.data[idx])
    }
}

/// Whether the mask looks inverted: the centre texel is darker than the
/// top-left corner. A typical brush is opaque in the middle, so a dark
/// centre means 0 is playing the opaque role.
pub open spec fn inverted_alpha_spec(img: GrayscaleImage) -> bool {
    if img.width == 0 || img.height == 0 {
        false
    } else {
        let center = img.data[(img.height / 2) * img.width + img.width / 2];
        let corner = img.data[0];
        center < corner
    }
}

/// Detect whether the mask's opacity convention is inverted.
pub fn detect_inverted_alpha(image: &GrayscaleImage) -> (r: bool)
    requires
        image_wf(*image),
    ensures
        r == inverted_alpha_spec(*image),
{
    if image.width == 0 || image.height == 0 {
        return false;
    }
    let cx = image.width / 2;
    let cy = image.height / 2;
    let center = match image.get_pixel(cx, cy) {
        Some(p) => p,
        None => 128,
    };
    let corner = match image.get_pixel(0, 0) {
        Some(p) => p,
        None => 128,
    };
    center < corner
}

/// Normalise a brush texture so that 255 is opaque and 0 transparent,
/// inverting every texel when the mask looks inverted.
pub fn normalize_brush_texture(image: &GrayscaleImage) -> (out: GrayscaleImage)
    requires
        image_wf(*image),
    ensures
        image_wf(out),
        out.width == image.width,
        out.height == image.height,
        out.data.len() == image.data.len(),
        forall|i: int|
            0 <= i < image.data.len() ==> #[trigger] out.data[i] == (if inverted_alpha_spec(
                *image,
            ) {
                (255 - image.data[i]) as u8
            } else {
                image.data[i]
            }),
{
    let should_invert = detect_inverted_alpha(image);
    let n = image.data.len();
    let mut normalized: Vec<u8> = Vec::new();
    let mut i: usize = 0;
    while i < n
        invariant
            i <= n,
            n == image.data.len(),
            normalized.len() == i,
            should_invert == inverted_alpha_spec(*image),
            forall|j: int|
                0 <= j < i ==> #[trigger] normalized[j] == (if inverted_alpha_spec(*image) {
                    (255 - image.data[j]) as u8
                } else {
                    image.data[j]
                }),
        decreases n - i,
    {
        let p = image.data[i];
        if should_invert {
            normalized.push(255 - p);
        } else {
            normalized.push(p);
        }
        i += 1;
    }
    GrayscaleImage { width: image.width, height: image.height, data: normalized }
}

/// Row-major indices of a bounded image stay in range.
proof fn lemma_texel_in_range(width: int, height: int, x: int, y: int)
    requires
        0 <= x < width,
        0 <= y < height,
        width <= 0x8000,
        height <= 0x8000,
    ensures
        0 <= y * width + x < width * height,
        y * width + x < 0x4000_0000,
{
    assert(y * width + x < width * height && y * width + x < 0x4000_0000 && y * width >= 0)
        by (nonlinear_arith)
        requires
            0 <= x < width,
            0 <= y < height,
            width <= 0x8000,
            height <= 0x8000,
    ;
}

/// Default brush parameters used when a descriptor omits a value.
/// Lengths are in fixed-point coordinate steps, fractions in fixed-point
/// unit steps.
pub struct AbrDefaults;

impl AbrDefaults {
    /// Default brush diameter: 30 pixels.
    pub const DIAMETER: i64 = 7680;

    /// Default hardness: a fully hard edge.
    pub const HARDNESS: i64 = 65536;

    /// Default spacing: a quarter of the diameter.
    pub const SPACING: i64 = 16384;

    /// Default brush angle.
    pub const ANGLE: i64 = 0;

    /// Default roundness: circular.
    pub const ROUNDNESS: i64 = 65536;

    /// Default size jitter: none.
    pub const SIZE_JITTER: i64 = 0;

    /// Default minimum size: none.
    pub const SIZE_MINIMUM: i64 = 0;

    /// Default opacity jitter: none.
    pub const OPACITY_JITTER: i64 = 0;

    /// Default scatter amount: none.
    pub const SCATTER: i64 = 0;

    /// Default scatter count.
    pub const SCATTER_COUNT: u32 = 1;
}

} // verus!
