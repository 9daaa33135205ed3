use vstd::prelude::*;

use crate::raster::RasterImage;
use crate::raster::chan_at;
use vstd::arithmetic::div_mod::lemma_div_multiples_vanish;
use vstd::arithmetic::div_mod::lemma_fundamental_div_mod;
use vstd::arithmetic::div_mod::lemma_fundamental_div_mod_converse_div;
use vstd::arithmetic::div_mod::lemma_fundamental_div_mod_converse_mod;
use vstd::arithmetic::div_mod::lemma_mod_division_less_than_divisor;
use vstd::arithmetic::div_mod::lemma_multiply_divide_lt;

verus! {

/// `out` is `src` resampled to 28 x 28 by nearest-neighbor sampling:
/// destination pixel `(x, y)` copies all four channels of source pixel
/// `(x * src.width / 28, y * src.height / 28)` verbatim, with integer
/// division; no blending. The source index is always in range because
/// `x < 28` makes `x * src.width / 28 < src.width`.
pub open spec fn scaled_to_28(src: RasterImage, out: RasterImage) -> bool {
    &&& out.width == 28
    &&& out.height == 28
    &&& out.well_formed()
    &&& forall|x: int, y: int, c: int|
        0 <= x < 28 && 0 <= y < 28 && 0 <= c < 4 ==> #[trigger] out.chan(x, y, c) == src.chan(
            x * (src.width as int) / 28,
            y * (src.height as int) / 28,
            c,
        )
}

/// The nearest-neighbor source index of a destination coordinate `x < 28`
/// lies inside the source dimension `s`.
proof fn lemma_src_index_in_range(x: int, s: int)
    requires
        0 <= x < 28,
        1 <= s,
    ensures
        0 <= x * s / 28 < s,
{
    assert(0 <= x * s && x * s < 28 * s) by (nonlinear_arith)
        requires
            0 <= x < 28,
            1 <= s,
    ;
    lemma_multiply_divide_lt(x * s, 28, s);
    assert(x * s / 28 >= 0) by (nonlinear_arith)
        requires
            x * s >= 0,
    ;
}

/// The channel that nearest-neighbor sampling writes at flat index `i` of
/// the 28 x 28 destination buffer: `i` decomposes as channel `i % 4` of
/// destination pixel `((i / 4) % 28, (i / 4) / 28)`.
spec fn nn_src_chan(src: RasterImage, i: int) -> u8 {
    src.chan(
        ((i / 4) % 28) * (src.width as int) / 28,
        ((i / 4) / 28) * (src.height as int) / 28,
        i % 4,
    )
}

/// Resamples an arbitrary-size raster to 28 x 28 with nearest-neighbor
/// sampling, all four channels copied verbatim.
pub fn scale_image_data_to_28x28(src: &RasterImage) -> (out: RasterImage)
    requires
        src.well_formed(),
        1 <= src.width,
        1 <= src.height,
    ensures
        scaled_to_28(*src, out),
{
    let sw = src.width;
    let sh = src.height;
    let mut pixels: Vec<u8> = Vec::new();
    let mut y: u32 = 0;
    while y < 28
        invariant
            src.well_formed(),
            sw == src.width,
            sh == src.height,
            1 <= sw,
            1 <= sh,
            y <= 28,
            pixels.len() == 112 * (y as int),
            forall|i: int| 0 <= i < pixels.len() ==> #[trigger] pixels@[i] == nn_src_chan(*src, i),
        decreases 28 - y,
    {
        proof {
            assert((y as int) * (sh as int) < 28 * 0x1_0000_0000) by (nonlinear_arith)
                requires
                    0 <= (y as int) < 28,
                    0 <= (sh as int) < 0x1_0000_0000,
            ;
            lemma_src_index_in_range(y as int, sh as int);
        }
        let sy = (((y as u64) * (sh as u64)) / 28) as u32;
        let mut x: u32 = 0;
        while x < 28
            invariant
                src.well_formed(),
                sw == src.width,
                sh == src.height,
                1 <= sw,
                1 <= sh,
                y < 28,
                x <= 28,
                sy == (y as int) * (sh as int) / 28,
                0 <= sy < sh,
                pixels.len() == 112 * (y as int) + 4 * (x as int),
                forall|i: int|
                    0 <= i < pixels.len() ==> #[trigger] pixels@[i] == nn_src_chan(*src, i),
            decreases 28 - x,
        {
            proof {
                assert((x as int) * (sw as int) < 28 * 0x1_0000_0000) by (nonlinear_arith)
                    requires
                        0 <= (x as int) < 28,
                        0 <= (sw as int) < 0x1_0000_0000,
                ;
                lemma_src_index_in_range(x as int, sw as int);
            }
            let sx = (((x as u64) * (sw as u64)) / 28) as u32;
            let mut c: usize = 0;
            while c < 4
                invariant
                    src.well_formed(),
                    sw == src.width,
                    sh == src.height,
                    1 <= sw,
                    1 <= sh,
                    y < 28,
                    x < 28,
                    c <= 4,
                    sy == (y as int) * (sh as int) / 28,
                    0 <= sy < sh,
                    sx == (x as int) * (sw as int) / 28,
                    0 <= sx < sw,
                    pixels.len() == 112 * (y as int) + 4 * (x as int) + c,
                    forall|i: int|
                        0 <= i < pixels.len() ==> #[trigger] pixels@[i] == nn_src_chan(*src, i),
                decreases 4 - c,
            {
                let v = chan_at(src, sx, sy, c);
                pixels.push(v);
                proof {
                    let i = pixels@.len() - 1;
                    let t = 28 * (y as int) + (x as int);
                    assert(i == t * 4 + (c as int));
                    lemma_fundamental_div_mod_converse_div(i, 4, t, c as int);
                    lemma_fundamental_div_mod_converse_mod(i, 4, t, c as int);
                    assert(t == (y as int) * 28 + (x as int));
                    lemma_fundamental_div_mod_converse_div(t, 28, y as int, x as int);
                    lemma_fundamental_div_mod_converse_mod(t, 28, y as int, x as int);
                    assert(i / 4 == t && i % 4 == c as int);
                    assert(t / 28 == y as int && t % 28 == x as int);
                    assert(pixels@[i] == nn_src_chan(*src, i));
                }
                c = c + 1;
            }
            x = x + 1;
        }
        y = y + 1;
    }
    let out = RasterImage { width: 28, height: 28, pixels };
    proof {
        assert forall|x2: int, y2: int, c2: int|
            0 <= x2 < 28 && 0 <= y2 < 28 && 0 <= c2 < 4 implies #[trigger] out.chan(x2, y2, c2)
            == src.chan(x2 * (sw as int) / 28, y2 * (sh as int) / 28, c2) by {
            let t = y2 * 28 + x2;
            let i = t * 4 + c2;
            lemma_fundamental_div_mod_converse_div(i, 4, t, c2);
            lemma_fundamental_div_mod_converse_mod(i, 4, t, c2);
            lemma_fundamental_div_mod_converse_div(t, 28, y2, x2);
            lemma_fundamental_div_mod_converse_mod(t, 28, y2, x2);
            assert(0 <= i < out.pixels@.len());
            assert(out.pixels@[i] == nn_src_chan(*src, i));
            let ow = out.width as int;
            assert(y2 * ow == y2 * 28) by (nonlinear_arith)
                requires
                    ow == 28,
            ;
            assert(4 * (y2 * ow + x2) + c2 == i);
            assert(out.chan(x2, y2, c2) == out.pixels@[i]);
        }
    }
    out
}

/// Scaling a raster that is already 28 x 28 to 28 x 28 is the identity
/// transform: the output pixel buffer equals the input pixel buffer.
pub proof fn lemma_scale_identity(src: RasterImage, out: RasterImage)
    requires
        src.well_formed(),
        src.width == 28,
        src.height == 28,
        scaled_to_28(src, out),
    ensures
        out.pixels@ == src.pixels@,
{
    assert forall|i: int| 0 <= i < 3136 implies out.pixels@[i] == src.pixels@[i] by {
        let c = i % 4;
        let t = i / 4;
        let x = t % 28;
        let y = t / 28;
        lemma_mod_division_less_than_divisor(i, 4);
        lemma_mod_division_less_than_divisor(t, 28);
        lemma_fundamental_div_mod(i, 4);
        lemma_fundamental_div_mod(t, 28);
        lemma_multiply_divide_lt(i, 4, 784);
        lemma_multiply_divide_lt(t, 28, 28);
        assert(0 <= t < 784);
        assert(0 <= c < 4 && 0 <= x < 28 && 0 <= y < 28);
        assert(out.chan(x, y, c) == src.chan(x * 28 / 28, y * 28 / 28, c));
        lemma_div_multiples_vanish(x, 28);
        lemma_div_multiples_vanish(y, 28);
        assert(x * 28 / 28 == x && y * 28 / 28 == y);
        assert(out.chan(x, y, c) == out.pixels@[i]);
        assert(src.chan(x, y, c) == src.pixels@[i]);
    }
    assert(out.pixels@ =~= src.pixels@);
}

} // verus!
