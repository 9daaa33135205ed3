use digit_infer::bounds::BoundingBox;
use digit_infer::bounds::crop;
use digit_infer::bounds::find_bounds;
use digit_infer::error::PipelineError;
use digit_infer::gray::GRAY_MAX;
use digit_infer::gray::rgba_to_gray;
use digit_infer::pipeline::preprocess;
use digit_infer::raster::RasterImage;
use digit_infer::scale::scale_image_data_to_28x28;

fn solid_raster(width: u32, height: u32, px: [u8; 4]) -> RasterImage {
    let mut pixels = Vec::new();
    for _ in 0..(width * height) {
        pixels.extend_from_slice(&px);
    }
    RasterImage { width, height, pixels }
}

fn set_pixel(r: &mut RasterImage, x: u32, y: u32, px: [u8; 4]) {
    let idx = 4 * (y * r.width + x) as usize;
    r.pixels[idx..idx + 4].copy_from_slice(&px);
}

#[test]
fn bounds_minimal_rectangle() {
    let mut r = solid_raster(8, 6, [0, 0, 0, 0]);
    set_pixel(&mut r, 2, 1, [255, 255, 255, 255]);
    set_pixel(&mut r, 5, 3, [255, 255, 255, 255]);
    let b = find_bounds(&r).expect("ink present");
    assert_eq!(b, BoundingBox { min_x: 2, min_y: 1, width: 4, height: 3 });
}

#[test]
fn bounds_single_pixel() {
    let mut r = solid_raster(5, 5, [0, 0, 0, 0]);
    set_pixel(&mut r, 3, 2, [10, 20, 30, 1]);
    let b = find_bounds(&r).expect("ink present");
    assert_eq!(b, BoundingBox { min_x: 3, min_y: 2, width: 1, height: 1 });
}

#[test]
fn bounds_empty_canvas_is_none() {
    let r = solid_raster(7, 4, [255, 255, 255, 0]);
    assert!(find_bounds(&r).is_none());
}

#[test]
fn bounds_idempotent_after_crop() {
    let mut r = solid_raster(8, 6, [0, 0, 0, 0]);
    set_pixel(&mut r, 2, 1, [255, 255, 255, 255]);
    set_pixel(&mut r, 5, 3, [255, 255, 255, 255]);
    let b = find_bounds(&r).expect("ink present");
    let cropped = crop(&r, &b);
    let again = find_bounds(&cropped).expect("ink still present");
    assert_eq!(
        again,
        BoundingBox { min_x: 0, min_y: 0, width: b.width, height: b.height }
    );
}

#[test]
fn scale_of_28x28_is_identity() {
    let mut r = solid_raster(28, 28, [0, 0, 0, 255]);
    for y in 0..28u32 {
        for x in 0..28u32 {
            set_pixel(&mut r, x, y, [x as u8, y as u8, (x + y) as u8, 255]);
        }
    }
    let scaled = scale_image_data_to_28x28(&r);
    assert_eq!(scaled.width, 28);
    assert_eq!(scaled.height, 28);
    assert_eq!(scaled.pixels, r.pixels);
}

#[test]
fn scale_nearest_neighbor_two_columns() {
    let mut r = solid_raster(2, 1, [10, 20, 30, 255]);
    set_pixel(&mut r, 1, 0, [200, 100, 50, 255]);
    let scaled = scale_image_data_to_28x28(&r);
    for y in 0..28u32 {
        for x in 0..28u32 {
            let idx = 4 * (y * 28 + x) as usize;
            // source column is x * 2 / 28: 0 up to x = 13, 1 from x = 14 on
            let expect: [u8; 4] = if x < 14 { [10, 20, 30, 255] } else { [200, 100, 50, 255] };
            assert_eq!(&scaled.pixels[idx..idx + 4], &expect);
        }
    }
}

#[test]
fn scale_downsamples_by_two() {
    let mut r = solid_raster(56, 56, [0, 0, 0, 255]);
    for y in 0..56u32 {
        for x in 0..56u32 {
            set_pixel(&mut r, x, y, [x as u8, y as u8, 0, 255]);
        }
    }
    let scaled = scale_image_data_to_28x28(&r);
    for y in 0..28u32 {
        for x in 0..28u32 {
            let idx = 4 * (y * 28 + x) as usize;
            // source pixel is (x * 56 / 28, y * 56 / 28) = (2x, 2y)
            assert_eq!(&scaled.pixels[idx..idx + 4], &[(2 * x) as u8, (2 * y) as u8, 0, 255]);
        }
    }
}

#[test]
fn bounds_full_canvas_when_all_ink() {
    let r = solid_raster(6, 9, [0, 0, 0, 255]);
    let b = find_bounds(&r).expect("everything is ink");
    assert_eq!(b, BoundingBox { min_x: 0, min_y: 0, width: 6, height: 9 });
}

#[test]
fn gray_of_opaque_white_is_all_zero() {
    let r = solid_raster(28, 28, [255, 255, 255, 255]);
    let t = rgba_to_gray(&r);
    assert_eq!(t.values.len(), 784);
    assert!(t.values.iter().all(|&v| v == 0));
}

#[test]
fn gray_of_transparent_black_is_all_full() {
    let r = solid_raster(28, 28, [0, 0, 0, 0]);
    let t = rgba_to_gray(&r);
    assert_eq!(t.values.len(), 784);
    assert!(t.values.iter().all(|&v| v == GRAY_MAX));
}

#[test]
fn gray_luminosity_formula_exact() {
    let r = solid_raster(28, 28, [10, 20, 30, 255]);
    let t = rgba_to_gray(&r);
    // 0.299 * 10 + 0.587 * 20 + 0.114 * 30 = 18.150 gray, inverted:
    // 255.000 - 18.150 = 236.850, in thousandths
    let expected = 255_000 - (299 * 10 + 587 * 20 + 114 * 30);
    assert!(t.values.iter().all(|&v| v == expected));
}

#[test]
fn preprocess_single_white_pixel() {
    let mut r = solid_raster(3, 3, [0, 0, 0, 0]);
    set_pixel(&mut r, 1, 1, [255, 255, 255, 255]);
    let t = preprocess(&r).expect("has ink");
    assert_eq!(t.values.len(), 784);
    assert!(t.values.iter().all(|&v| v == 0));
}

#[test]
fn preprocess_values_stay_in_range() {
    let mut r = solid_raster(2, 2, [0, 0, 0, 0]);
    set_pixel(&mut r, 0, 0, [0, 0, 0, 255]);
    set_pixel(&mut r, 1, 1, [255, 255, 255, 255]);
    let t = preprocess(&r).expect("has ink");
    assert_eq!(t.values.len(), 784);
    assert!(t.values.iter().all(|&v| v <= GRAY_MAX));
    // top-left quadrant samples the opaque black pixel: full inverted value
    assert_eq!(t.values[0], GRAY_MAX);
    // bottom-right quadrant samples the opaque white pixel: zero
    assert_eq!(t.values[783], 0);
}

#[test]
fn preprocess_empty_canvas_fails() {
    let r = solid_raster(9, 7, [13, 99, 200, 0]);
    match preprocess(&r) {
        Err(e) => assert_eq!(e, PipelineError::EmptyInput),
        Ok(_) => panic!("empty canvas must not preprocess"),
    }
}

#[test]
fn preprocess_short_buffer_fails() {
    let mut r = solid_raster(3, 2, [255, 255, 255, 255]);
    r.pixels.pop();
    assert_eq!(r.pixels.len(), 3 * 2 * 4 - 1);
    match preprocess(&r) {
        Err(e) => assert_eq!(e, PipelineError::ShapeMismatch),
        Ok(_) => panic!("malformed raster must not preprocess"),
    }
}

#[test]
fn preprocess_wrong_dimensions_fail() {
    let mut r = solid_raster(4, 4, [255, 255, 255, 255]);
    r.width = 5;
    match preprocess(&r) {
        Err(e) => assert_eq!(e, PipelineError::ShapeMismatch),
        Ok(_) => panic!("malformed raster must not preprocess"),
    }
}
