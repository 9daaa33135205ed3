use vstd::prelude::*;

use crate::raster::RasterImage;

verus! {

/// The largest tensor value: full intensity 255, in thousandths.
/// Intensities are carried in thousandths of the 0..=255 scale, so that
/// the luminosity weights 0.299, 0.587 and 0.114 become the exact
/// integers 299, 587 and 114 per mille.
pub const GRAY_MAX: u32 = 255 * 1000;

/// A 28 x 28 single-channel tensor in row-major order. Each value is an
/// inverted gray intensity in thousandths: `GRAY_MAX` stands for 255.0
/// (full ink), `0` for 0.0 (blank background).
#[derive(Debug, Clone)]
pub struct GrayscaleTensor {
    pub values: Vec<u32>,
}

impl GrayscaleTensor {
    /// 784 values, each at most `GRAY_MAX`.
    pub open spec fn well_formed(self) -> bool {
        &&& self.values.len() == 784
        &&& forall|i: int| 0 <= i < 784 ==> #[trigger] self.values[i] <= GRAY_MAX
    }
}

/// The inverted gray intensity of one RGBA pixel, in thousandths: the
/// luminosity-weighted gray `0.299 r + 0.587 g + 0.114 b` (alpha ignored),
/// inverted as `255 - gray` so that opaque white strokes on a dark canvas
/// come out as high values.
pub open spec fn inverted_gray_milli(r: u8, g: u8, b: u8) -> int {
    255 * 1000 - (299 * r + 587 * g + 114 * b)
}

/// `t` holds, pixel for pixel in row-major order, the inverted gray
/// intensities of the 28 x 28 raster `s`.
pub open spec fn gray_of(s: RasterImage, t: GrayscaleTensor) -> bool {
    &&& t.values.len() == 784
    &&& forall|i: int|
        0 <= i < 784 ==> #[trigger] t.values[i] == inverted_gray_milli(
            s.pixels[4 * i],
            s.pixels[4 * i + 1],
            s.pixels[4 * i + 2],
        )
}

/// Converts a 28 x 28 RGBA raster to the inverted grayscale tensor, one
/// value per pixel in row-major order.
pub fn rgba_to_gray(s: &RasterImage) -> (t: GrayscaleTensor)
    requires
        s.well_formed(),
        s.width == 28,
        s.height == 28,
    ensures
        gray_of(*s, t),
        t.well_formed(),
{
    let mut values: Vec<u32> = Vec::new();
    let mut i: usize = 0;
    while i < 784
        invariant
            s.well_formed(),
            s.width == 28,
            s.height == 28,
            i <= 784,
            values.len() == i,
            forall|j: int|
                0 <= j < i ==> #[trigger] values[j] == inverted_gray_milli(
                    s.pixels[4 * j],
                    s.pixels[4 * j + 1],
                    s.pixels[4 * j + 2],
                ),
            forall|j: int| 0 <= j < i ==> #[trigger] values[j] <= GRAY_MAX,
        decreases 784 - i,
    {
        let r = s.pixels[4 * i] as u32;
        let g = s.pixels[4 * i + 1] as u32;
        let b = s.pixels[4 * i + 2] as u32;
        let gray = 299 * r + 587 * g + 114 * b;
        values.push(GRAY_MAX - gray);
        i = i + 1;
    }
    GrayscaleTensor { values }
}

/// Grayscale plus inversion of an all-opaque-white raster yields the
/// all-zero tensor: every pixel's gray is exactly 255, and 255 - 255 = 0.
pub proof fn lemma_white_gives_zero(s: RasterImage, t: GrayscaleTensor)
    requires
        s.well_formed(),
        s.width == 28,
        s.height == 28,
        gray_of(s, t),
        forall|i: int| 0 <= i < s.pixels.len() ==> #[trigger] s.pixels[i] == 255,
    ensures
        forall|i: int| 0 <= i < 784 ==> #[trigger] t.values[i] == 0,
{
    assert forall|i: int| 0 <= i < 784 implies #[trigger] t.values[i] == 0 by {
        assert(s.pixels[4 * i] == 255);
        assert(s.pixels[4 * i + 1] == 255);
        assert(s.pixels[4 * i + 2] == 255);
    }
}

/// Grayscale plus inversion of an all-transparent black raster yields the
/// all-255 tensor (in thousandths): every pixel's gray is 0, inverted to
/// the full value 255.
pub proof fn lemma_black_gives_full(s: RasterImage, t: GrayscaleTensor)
    requires
        s.well_formed(),
        s.width == 28,
        s.height == 28,
        gray_of(s, t),
        forall|i: int| 0 <= i < s.pixels.len() ==> #[trigger] s.pixels[i] == 0,
    ensures
        forall|i: int| 0 <= i < 784 ==> #[trigger] t.values[i] == GRAY_MAX,
{
    assert forall|i: int| 0 <= i < 784 implies #[trigger] t.values[i] == GRAY_MAX by {
        assert(s.pixels[4 * i] == 0);
        assert(s.pixels[4 * i + 1] == 0);
        assert(s.pixels[4 * i + 2] == 0);
    }
}

} // verus!
