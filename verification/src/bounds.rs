use vstd::prelude::*;

use crate::raster::RasterImage;
use crate::raster::chan_at;

verus! {

/// An integer pixel rectangle, inclusive of its first and last column and
/// row: the last covered column is `min_x + width - 1`.
#[derive(Clone, Copy, Debug, PartialEq, Eq, Structural)]
pub struct BoundingBox {
    pub min_x: u32,
    pub min_y: u32,
    pub width: u32,
    pub height: u32,
}

/// `b` is the minimal axis-aligned rectangle enclosing every ink pixel of
/// `r`: all ink lies inside `b`, and each of the four edges of `b` touches
/// at least one ink pixel. Such a box exists only when `r` has ink, and it
/// is then unique.
pub open spec fn is_bounding_box(r: RasterImage, b: BoundingBox) -> bool {
    &&& 1 <= b.width
    &&& 1 <= b.height
    &&& b.min_x + b.width <= r.width
    &&& b.min_y + b.height <= r.height
    &&& forall|x: int, y: int|
        r.in_range(x, y) && #[trigger] r.is_ink(x, y) ==> b.min_x <= x < b.min_x + b.width
            && b.min_y <= y < b.min_y + b.height
    &&& exists|y: int| 0 <= y < r.height && #[trigger] r.is_ink(b.min_x as int, y)
    &&& exists|y: int| 0 <= y < r.height && #[trigger] r.is_ink(b.min_x + b.width - 1, y)
    &&& exists|x: int| 0 <= x < r.width && #[trigger] r.is_ink(x, b.min_y as int)
    &&& exists|x: int| 0 <= x < r.width && #[trigger] r.is_ink(x, b.min_y + b.height - 1)
}

/// The pixels of `r` that a row-major scan has already visited when its
/// cursor stands on column `cx` of row `cy`.
spec fn scanned(r: RasterImage, x: int, y: int, cx: int, cy: int) -> bool {
    r.in_range(x, y) && (y < cy || (y == cy && x < cx))
}

/// Whether the pixel at `(x, y)` is ink, read from the flat RGBA buffer.
fn ink_at(r: &RasterImage, x: u32, y: u32) -> (b: bool)
    requires
        r.well_formed(),
        r.in_range(x as int, y as int),
    ensures
        b == r.is_ink(x as int, y as int),
{
    chan_at(r, x, y, 3) != 0
}

/// Scans every pixel and returns the minimal rectangle enclosing all ink
/// pixels, inclusive on both ends, or `None` when the canvas holds no ink
/// at all (the degenerate case that a caller must not try to scale).
pub fn find_bounds(r: &RasterImage) -> (res: Option<BoundingBox>)
    requires
        r.well_formed(),
    ensures
        res matches Some(b) ==> is_bounding_box(*r, b),
        res is None <==> !r.has_ink(),
{
    let w = r.width;
    let h = r.height;
    let mut found: bool = false;
    let mut min_x: u32 = 0;
    let mut max_x: u32 = 0;
    let mut min_y: u32 = 0;
    let mut max_y: u32 = 0;
    let mut y: u32 = 0;
    while y < h
        invariant
            r.well_formed(),
            w == r.width,
            h == r.height,
            y <= h,
            found <==> exists|x2: int, y2: int|
                scanned(*r, x2, y2, 0, y as int) && #[trigger] r.is_ink(x2, y2),
            found ==> min_x <= max_x < w && min_y <= max_y < h,
            found ==> forall|x2: int, y2: int|
                scanned(*r, x2, y2, 0, y as int) && #[trigger] r.is_ink(x2, y2)
                    ==> min_x <= x2 <= max_x && min_y <= y2 <= max_y,
            found ==> exists|y2: int|
                scanned(*r, min_x as int, y2, 0, y as int) && #[trigger] r.is_ink(min_x as int, y2),
            found ==> exists|y2: int|
                scanned(*r, max_x as int, y2, 0, y as int) && #[trigger] r.is_ink(max_x as int, y2),
            found ==> exists|x2: int|
                scanned(*r, x2, min_y as int, 0, y as int) && #[trigger] r.is_ink(x2, min_y as int),
            found ==> exists|x2: int|
                scanned(*r, x2, max_y as int, 0, y as int) && #[trigger] r.is_ink(x2, max_y as int),
        decreases h - y,
    {
        let mut x: u32 = 0;
        while x < w
            invariant
                r.well_formed(),
                w == r.width,
                h == r.height,
                y < h,
                x <= w,
                found <==> exists|x2: int, y2: int|
                    scanned(*r, x2, y2, x as int, y as int) && #[trigger] r.is_ink(x2, y2),
                found ==> min_x <= max_x < w && min_y <= max_y < h,
                found ==> forall|x2: int, y2: int|
                    scanned(*r, x2, y2, x as int, y as int) && #[trigger] r.is_ink(x2, y2)
                        ==> min_x <= x2 <= max_x && min_y <= y2 <= max_y,
                found ==> exists|y2: int|
                    scanned(*r, min_x as int, y2, x as int, y as int)
                        && #[trigger] r.is_ink(min_x as int, y2),
                found ==> exists|y2: int|
                    scanned(*r, max_x as int, y2, x as int, y as int)
                        && #[trigger] r.is_ink(max_x as int, y2),
                found ==> exists|x2: int|
                    scanned(*r, x2, min_y as int, x as int, y as int)
                        && #[trigger] r.is_ink(x2, min_y as int),
                found ==> exists|x2: int|
                    scanned(*r, x2, max_y as int, x as int, y as int)
                        && #[trigger] r.is_ink(x2, max_y as int),
            decreases w - x,
        {
            if ink_at(r, x, y) {
                if !found {
                    found = true;
                    min_x = x;
                    max_x = x;
                    min_y = y;
                    max_y = y;
                } else {
                    if x < min_x {
                        min_x = x;
                    }
                    if x > max_x {
                        max_x = x;
                    }
                    if y < min_y {
                        min_y = y;
                    }
                    if y > max_y {
                        max_y = y;
                    }
                }
            }
            x = x + 1;
        }
        y = y + 1;
    }
    if found {
        let bb = BoundingBox {
            min_x,
            min_y,
            width: max_x - min_x + 1,
            height: max_y - min_y + 1,
        };
        proof {
            assert forall|x2: int, y2: int|
                r.in_range(x2, y2) && #[trigger] r.is_ink(x2, y2) implies bb.min_x <= x2
                < bb.min_x + bb.width && bb.min_y <= y2 < bb.min_y + bb.height by {
                assert(scanned(*r, x2, y2, 0, h as int));
            }
            let yl = choose|y2: int|
                scanned(*r, min_x as int, y2, 0, h as int) && #[trigger] r.is_ink(min_x as int, y2);
            assert(0 <= yl < r.height && r.is_ink(bb.min_x as int, yl));
            let yr = choose|y2: int|
                scanned(*r, max_x as int, y2, 0, h as int) && #[trigger] r.is_ink(max_x as int, y2);
            assert(bb.min_x + bb.width - 1 == max_x as int);
            assert(0 <= yr < r.height && r.is_ink(bb.min_x + bb.width - 1, yr));
            let xt = choose|x2: int|
                scanned(*r, x2, min_y as int, 0, h as int) && #[trigger] r.is_ink(x2, min_y as int);
            assert(0 <= xt < r.width && r.is_ink(xt, bb.min_y as int));
            let xb = choose|x2: int|
                scanned(*r, x2, max_y as int, 0, h as int) && #[trigger] r.is_ink(x2, max_y as int);
            assert(bb.min_y + bb.height - 1 == max_y as int);
            assert(0 <= xb < r.width && r.is_ink(xb, bb.min_y + bb.height - 1));
        }
        Some(bb)
    } else {
        None
    }
}

/// Only one rectangle is the bounding box of a raster: each edge is
/// pinned between "all ink lies inside both boxes" and "each edge of
/// either box touches ink".
pub proof fn lemma_bounding_box_unique(r: RasterImage, b1: BoundingBox, b2: BoundingBox)
    requires
        is_bounding_box(r, b1),
        is_bounding_box(r, b2),
    ensures
        b1 == b2,
{
    let l1 = choose|y: int| 0 <= y < r.height && #[trigger] r.is_ink(b1.min_x as int, y);
    assert(r.in_range(b1.min_x as int, l1) && r.is_ink(b1.min_x as int, l1));
    let l2 = choose|y: int| 0 <= y < r.height && #[trigger] r.is_ink(b2.min_x as int, y);
    assert(r.in_range(b2.min_x as int, l2) && r.is_ink(b2.min_x as int, l2));
    assert(b1.min_x == b2.min_x);
    let r1 = choose|y: int| 0 <= y < r.height && #[trigger] r.is_ink(b1.min_x + b1.width - 1, y);
    assert(r.in_range(b1.min_x + b1.width - 1, r1) && r.is_ink(b1.min_x + b1.width - 1, r1));
    let r2 = choose|y: int| 0 <= y < r.height && #[trigger] r.is_ink(b2.min_x + b2.width - 1, y);
    assert(r.in_range(b2.min_x + b2.width - 1, r2) && r.is_ink(b2.min_x + b2.width - 1, r2));
    assert(b1.width == b2.width);
    let t1 = choose|x: int| 0 <= x < r.width && #[trigger] r.is_ink(x, b1.min_y as int);
    assert(r.in_range(t1, b1.min_y as int) && r.is_ink(t1, b1.min_y as int));
    let t2 = choose|x: int| 0 <= x < r.width && #[trigger] r.is_ink(x, b2.min_y as int);
    assert(r.in_range(t2, b2.min_y as int) && r.is_ink(t2, b2.min_y as int));
    assert(b1.min_y == b2.min_y);
    let u1 = choose|x: int| 0 <= x < r.width && #[trigger] r.is_ink(x, b1.min_y + b1.height - 1);
    assert(r.in_range(u1, b1.min_y + b1.height - 1) && r.is_ink(u1, b1.min_y + b1.height - 1));
    let u2 = choose|x: int| 0 <= x < r.width && #[trigger] r.is_ink(x, b2.min_y + b2.height - 1);
    assert(r.in_range(u2, b2.min_y + b2.height - 1) && r.is_ink(u2, b2.min_y + b2.height - 1));
    assert(b1.height == b2.height);
}

/// `out` is the exact pixel copy of the rectangle `b` of `r`: same four
/// channels, no interpolation.
pub open spec fn cropped(r: RasterImage, b: BoundingBox, out: RasterImage) -> bool {
    &&& out.width == b.width
    &&& out.height == b.height
    &&& out.well_formed()
    &&& forall|x: int, y: int, c: int|
        0 <= x < b.width && 0 <= y < b.height && 0 <= c < 4 ==> #[trigger] out.chan(x, y, c)
            == r.chan(b.min_x + x, b.min_y + y, c)
}

/// Extracts the sub-raster inside `b` as an exact pixel copy.
pub fn crop(r: &RasterImage, b: &BoundingBox) -> (out: RasterImage)
    requires
        r.well_formed(),
        b.min_x + b.width <= r.width,
        b.min_y + b.height <= r.height,
    ensures
        cropped(*r, *b, out),
{
    let bw = b.width;
    let bh = b.height;
    let mut pixels: Vec<u8> = Vec::new();
    let mut y: u32 = 0;
    while y < bh
        invariant
            r.well_formed(),
            bw == b.width,
            bh == b.height,
            b.min_x + bw <= r.width,
            b.min_y + bh <= r.height,
            y <= bh,
            pixels.len() == 4 * ((y as int) * (bw as int)),
            forall|x2: int, y2: int, c2: int|
                0 <= x2 < bw && 0 <= y2 < y && 0 <= c2 < 4 ==> #[trigger] pixels@[4 * (y2 * (
                bw as int) + x2) + c2] == r.chan(b.min_x + x2, b.min_y + y2, c2),
        decreases bh - y,
    {
        let mut x: u32 = 0;
        while x < bw
            invariant
                r.well_formed(),
                bw == b.width,
                bh == b.height,
                b.min_x + bw <= r.width,
                b.min_y + bh <= r.height,
                y < bh,
                x <= bw,
                pixels.len() == 4 * ((y as int) * (bw as int)) + 4 * (x as int),
                forall|x2: int, y2: int, c2: int|
                    0 <= x2 < bw && 0 <= y2 < y && 0 <= c2 < 4 ==> #[trigger] pixels@[4 * (y2 * (
                    bw as int) + x2) + c2] == r.chan(b.min_x + x2, b.min_y + y2, c2),
                forall|x2: int, c2: int|
                    0 <= x2 < x && 0 <= c2 < 4 ==> #[trigger] pixels@[4 * ((y as int) * (
                    bw as int) + x2) + c2] == r.chan(b.min_x + x2, b.min_y + y as int, c2),
            decreases bw - x,
        {
            let mut c: usize = 0;
            while c < 4
                invariant
                    r.well_formed(),
                    bw == b.width,
                    bh == b.height,
                    b.min_x + bw <= r.width,
                    b.min_y + bh <= r.height,
                    y < bh,
                    x < bw,
                    c <= 4,
                    pixels.len() == 4 * ((y as int) * (bw as int)) + 4 * (x as int) + c,
                    forall|x2: int, y2: int, c2: int|
                        0 <= x2 < bw && 0 <= y2 < y && 0 <= c2 < 4 ==> #[trigger] pixels@[4 * (y2
                            * (bw as int) + x2) + c2] == r.chan(b.min_x + x2, b.min_y + y2, c2),
                    forall|x2: int, c2: int|
                        0 <= x2 < x && 0 <= c2 < 4 ==> #[trigger] pixels@[4 * ((y as int) * (
                        bw as int) + x2) + c2] == r.chan(b.min_x + x2, b.min_y + y as int, c2),
                    forall|c2: int|
                        0 <= c2 < c ==> #[trigger] pixels@[4 * ((y as int) * (bw as int)
                            + x as int) + c2] == r.chan(b.min_x + x as int, b.min_y + y as int, c2),
                decreases 4 - c,
            {
                let v = chan_at(r, b.min_x + x, b.min_y + y, c);
                pixels.push(v);
                c = c + 1;
                proof {
                    let bwi = bw as int;
                    let yi = y as int;
                    assert forall|x2: int, y2: int, c2: int|
                        0 <= x2 < bwi && 0 <= y2 < yi && 0 <= c2 < 4 implies #[trigger] (4 * (y2
                            * bwi + x2) + c2) < 4 * (yi * bwi) by {
                        assert(4 * (y2 * bwi + x2) + c2 < 4 * (yi * bwi)) by (nonlinear_arith)
                            requires
                                0 <= x2 < bwi,
                                0 <= y2 < yi,
                                0 <= c2 < 4,
                        ;
                    }
                }
            }
            x = x + 1;
        }
        proof {
            let yi = y as int;
            let bwi = bw as int;
            assert(4 * ((yi + 1) * bwi) == 4 * (yi * bwi) + 4 * bwi) by (nonlinear_arith);
        }
        y = y + 1;
    }
    let out = RasterImage { width: bw, height: bh, pixels };
    proof {
        let bwi = bw as int;
        let bhi = bh as int;
        assert(4 * bwi * bhi == 4 * (bhi * bwi)) by (nonlinear_arith);
    }
    out
}

/// Bounding-box detection is idempotent under re-cropping: on the raster
/// already cropped to its bounding box, the bounding box is the whole
/// raster, so no further tightening is possible.
pub proof fn lemma_bounds_idempotent(r: RasterImage, b: BoundingBox, out: RasterImage)
    requires
        r.well_formed(),
        is_bounding_box(r, b),
        cropped(r, b, out),
    ensures
        is_bounding_box(out, BoundingBox { min_x: 0, min_y: 0, width: b.width, height: b.height }),
{
    let full = BoundingBox { min_x: 0, min_y: 0, width: b.width, height: b.height };
    let yl = choose|y: int| 0 <= y < r.height && #[trigger] r.is_ink(b.min_x as int, y);
    assert(r.in_range(b.min_x as int, yl));
    assert(out.is_ink(0, yl - b.min_y));
    assert(out.is_ink(full.min_x as int, yl - b.min_y));
    let yr = choose|y: int| 0 <= y < r.height && #[trigger] r.is_ink(b.min_x + b.width - 1, y);
    assert(r.in_range(b.min_x + b.width - 1, yr));
    assert(out.is_ink(b.width - 1, yr - b.min_y));
    assert(out.is_ink(full.min_x + full.width - 1, yr - b.min_y));
    let xt = choose|x: int| 0 <= x < r.width && #[trigger] r.is_ink(x, b.min_y as int);
    assert(r.in_range(xt, b.min_y as int));
    assert(out.is_ink(xt - b.min_x, 0));
    assert(out.is_ink(xt - b.min_x, full.min_y as int));
    let xb = choose|x: int| 0 <= x < r.width && #[trigger] r.is_ink(x, b.min_y + b.height - 1);
    assert(r.in_range(xb, b.min_y + b.height - 1));
    assert(out.is_ink(xb - b.min_x, b.height - 1));
    assert(out.is_ink(xb - b.min_x, full.min_y + full.height - 1));
}

} // verus!
