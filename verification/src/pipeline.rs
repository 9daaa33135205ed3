use vstd::prelude::*;

use crate::bounds::BoundingBox;
use crate::bounds::crop;
use crate::bounds::cropped;
use crate::bounds::find_bounds;
use crate::bounds::is_bounding_box;
use crate::error::PipelineError;
use crate::gray::GrayscaleTensor;
use crate::gray::gray_of;
use crate::gray::rgba_to_gray;
use crate::raster::RasterImage;
use crate::scale::scale_image_data_to_28x28;
use crate::scale::scaled_to_28;

verus! {

/// `t` is the tensor that preprocessing produces from `r`: the bounding
/// box of the ink (unique, since `is_bounding_box` pins it) is cropped out
/// of `r`, the crop is scaled to 28 x 28 by nearest-neighbor sampling, and
/// the result is converted to an inverted grayscale tensor.
pub open spec fn preprocess_ok(r: RasterImage, t: GrayscaleTensor) -> bool {
    exists|b: BoundingBox, c: RasterImage, s: RasterImage|
        {
            &&& is_bounding_box(r, b)
            &&& #[trigger] cropped(r, b, c)
            &&& #[trigger] scaled_to_28(c, s)
            &&& gray_of(s, t)
        }
}

/// Converts an arbitrary-size RGBA raster into a 28 x 28 inverted
/// grayscale tensor: bounding-box detection, crop, nearest-neighbor scale,
/// grayscale plus inversion. A raster whose buffer length does not match
/// its dimensions is rejected with `ShapeMismatch` before any processing;
/// a raster without any ink pixel is rejected with `EmptyInput`, and the
/// scale step is never attempted on it.
pub fn preprocess(r: &RasterImage) -> (res: Result<GrayscaleTensor, PipelineError>)
    ensures
        !r.well_formed() ==> res == Err::<GrayscaleTensor, PipelineError>(
            PipelineError::ShapeMismatch,
        ),
        r.well_formed() && !r.has_ink() ==> res == Err::<GrayscaleTensor, PipelineError>(
            PipelineError::EmptyInput,
        ),
        r.well_formed() && r.has_ink() ==> (res matches Ok(t) && preprocess_ok(*r, t)
            && t.well_formed()),
{
    let w = r.width;
    let h = r.height;
    proof {
        assert((w as int) * (h as int) * 4 == 4 * (w as int) * (h as int)) by (nonlinear_arith);
        assert(0 <= (w as int) * (h as int) < 0x1_0000_0000_0000_0000) by (nonlinear_arith)
            requires
                0 <= (w as int) < 0x1_0000_0000,
                0 <= (h as int) < 0x1_0000_0000,
        ;
    }
    if (r.pixels.len() as u128) != (w as u128) * (h as u128) * 4 {
        return Err(PipelineError::ShapeMismatch);
    }
    match find_bounds(r) {
        None => Err(PipelineError::EmptyInput),
        Some(b) => {
            let cropped_img = crop(r, &b);
            let scaled = scale_image_data_to_28x28(&cropped_img);
            let tensor = rgba_to_gray(&scaled);
            proof {
                assert(cropped(*r, b, cropped_img));
                assert(scaled_to_28(cropped_img, scaled));
            }
            Ok(tensor)
        },
    }
}

} // verus!
