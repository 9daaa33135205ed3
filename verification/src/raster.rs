use vstd::prelude::*;

verus! {

/// An immutable RGBA raster captured from a drawing surface: `pixels` holds
/// `width * height` pixels in row-major order, four bytes per pixel in the
/// order red, green, blue, alpha.
#[derive(Debug, Clone)]
pub struct RasterImage {
    pub width: u32,
    pub height: u32,
    pub pixels: Vec<u8>,
}

impl RasterImage {
    /// The pixel buffer length matches the declared dimensions exactly.
    pub open spec fn well_formed(self) -> bool {
        self.pixels.len() == 4 * (self.width as int) * (self.height as int)
    }

    /// Channel `c` (0 = red, 1 = green, 2 = blue, 3 = alpha) of the pixel at
    /// column `x`, row `y`.
    pub open spec fn chan(self, x: int, y: int, c: int) -> u8 {
        self.pixels[4 * (y * (self.width as int) + x) + c]
    }

    /// `(x, y)` lies inside the raster.
    pub open spec fn in_range(self, x: int, y: int) -> bool {
        0 <= x < self.width as int && 0 <= y < self.height as int
    }

    /// A pixel counts as ink exactly when its alpha channel is nonzero.
    pub open spec fn is_ink(self, x: int, y: int) -> bool {
        self.chan(x, y, 3) != 0
    }

    /// At least one pixel of the raster is ink.
    pub open spec fn has_ink(self) -> bool {
        exists|x: int, y: int| self.in_range(x, y) && #[trigger] self.is_ink(x, y)
    }
}

/// Channel `c` of the pixel at `(x, y)`, read from the flat RGBA buffer.
pub fn chan_at(r: &RasterImage, x: u32, y: u32, c: usize) -> (v: u8)
    requires
        r.well_formed(),
        r.in_range(x as int, y as int),
        c < 4,
    ensures
        v == r.chan(x as int, y as int, c as int),
{
    proof {
        lemma_chan_index_in_bounds(*r, x as int, y as int, c as int);
    }
    let idx: usize = 4 * ((y as usize) * (r.width as usize) + (x as usize));
    r.pixels[idx + c]
}

/// The flat buffer index of channel `c` of an in-range pixel `(x, y)` stays
/// inside the pixel buffer of a well-formed raster.
proof fn lemma_chan_index_in_bounds(r: RasterImage, x: int, y: int, c: int)
    requires
        r.well_formed(),
        r.in_range(x, y),
        0 <= c < 4,
    ensures
        0 <= 4 * (y * (r.width as int) + x) + c,
        4 * (y * (r.width as int) + x) + c < r.pixels.len(),
{
    let w = r.width as int;
    let h = r.height as int;
    assert(0 <= 4 * (y * w + x) + c && 4 * (y * w + x) + c < 4 * w * h) by (nonlinear_arith)
        requires
            0 <= x < w,
            0 <= y < h,
            0 <= c < 4,
    ;
}

} // verus!
