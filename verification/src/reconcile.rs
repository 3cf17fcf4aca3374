//! Dimension reconciliation: when carrier and secret dimensions differ,
//! the images are brought to a common size, either by Lanczos resampling
//! (delegated to the raster library) or by zero-padding expansion.

use crate::pixel::{lemma_chan_index, lemma_pixel_index_bound, lemma_raster_index, PixelBuffer};
use vstd::prelude::*;

verus! {

/// The bytes of the Lanczos3 resampling of an RGB image, exactly as
/// `image::imageops::resize` computes them: a function of the source bytes
/// and the source and target dimensions alone.
pub uninterp spec fn lanczos_resized(data: Seq<u8>, w: int, h: int, tw: int, th: int) -> Seq<u8>;

/// Relies on `image::imageops::resize` with `FilterType::Lanczos3`: it
/// returns a buffer of exactly the requested dimensions, resampled from
/// the source pixels and dimensions alone.
#[verifier::external_body]
pub(crate) fn resize_lanczos(src: &PixelBuffer, tw: u32, th: u32) -> (r: PixelBuffer)
    requires
        src.wf(),
        tw > 0,
        th > 0,
        3 * (tw as int) * (th as int) <= usize::MAX,
    ensures
        r.width == tw,
        r.height == th,
        r.data@.len() == 3 * (tw as int) * (th as int),
        r.data@ == lanczos_resized(
            src.data@,
            src.width as int,
            src.height as int,
            tw as int,
            th as int,
        ),
{
    let buf = image::RgbImage::from_raw(src.width, src.height, src.data.clone()).unwrap();
    let out = image::imageops::resize(&buf, tw, th, image::imageops::FilterType::Lanczos3);
    PixelBuffer { width: tw, height: th, data: out.into_raw() }
}

/// The bytes of an image brought to the target dimensions by placement at
/// the top-left corner: source pixels keep their position, every newly
/// introduced pixel is black.
pub open spec fn expand_data(s: Seq<u8>, w: int, h: int, tw: int, th: int) -> Seq<u8> {
    Seq::new(
        (3 * tw * th) as nat,
        |i: int|
            {
                let p = i / 3;
                let c = i % 3;
                let x = p % tw;
                let y = p / tw;
                if x < w && y < h {
                    s[3 * (y * w + x) + c]
                } else {
                    0u8
                }
            },
    )
}

/// Places the source image unchanged in the top-left corner of a buffer of
/// the target dimensions; all newly introduced pixels are black (0, 0, 0).
pub fn expand_image(source_image: &PixelBuffer, target_width: u32, target_height: u32) -> (r:
    PixelBuffer)
    requires
        source_image.wf(),
        target_width > 0,
        target_height > 0,
        3 * (target_width as int) * (target_height as int) <= usize::MAX,
    ensures
        r.wf(),
        r.width == target_width,
        r.height == target_height,
        r.data@ == expand_data(
            source_image.data@,
            source_image.width as int,
            source_image.height as int,
            target_width as int,
            target_height as int,
        ),
        forall|x: int, y: int, c: int|
            0 <= x < target_width && 0 <= y < target_height && 0 <= c < 3
                ==> #[trigger] r.chan_at(x, y, c) == (if x < source_image.width && y
                < source_image.height {
                source_image.chan_at(x, y, c)
            } else {
                0u8
            }),
{
    let ghost sw = source_image.width as int;
    let ghost sh = source_image.height as int;
    let ghost tgw = target_width as int;
    let ghost tgh = target_height as int;
    let ghost goal = expand_data(source_image.data@, sw, sh, tgw, tgh);
    proof {
        assert(3 * (tgw * tgh) == 3 * tgw * tgh) by (nonlinear_arith);
    }
    let total: usize = (target_width as usize) * (target_height as usize);
    let mut out: Vec<u8> = Vec::new();
    let mut p: usize = 0;
    while p < total
        invariant
            source_image.wf(),
            total == tgw * tgh,
            3 * total <= usize::MAX,
            tgw == target_width as int,
            tgh == target_height as int,
            target_width > 0,
            target_height > 0,
            sw == source_image.width as int,
            sh == source_image.height as int,
            goal == expand_data(source_image.data@, sw, sh, tgw, tgh),
            p <= total,
            goal.len() == 3 * total,
            out@.len() == 3 * p,
            forall|j: int| 0 <= j < 3 * p ==> out@[j] == goal[j],
        decreases total - p,
    {
        let x: u32 = (p % (target_width as usize)) as u32;
        let y: u32 = (p / (target_width as usize)) as u32;
        proof {
            vstd::arithmetic::div_mod::lemma_fundamental_div_mod(p as int, tgw);
            vstd::arithmetic::div_mod::lemma_mod_bound(p as int, tgw);
            assert(0 <= (p as int) / tgw < tgh) by (nonlinear_arith)
                requires
                    0 <= (p as int) < tgw * tgh,
                    tgw > 0,
                    tgh > 0,
                    p as int == tgw * ((p as int) / tgw) + (p as int) % tgw,
                    0 <= (p as int) % tgw < tgw,
            ;
            lemma_chan_index(p as int, 0);
            lemma_chan_index(p as int, 1);
            lemma_chan_index(p as int, 2);
            assert(3 * (p as int) + 2 < 3 * total) by (nonlinear_arith)
                requires
                    0 <= (p as int) < total,
            ;
        }
        if x < source_image.width && y < source_image.height {
            out.push(source_image.channel(x, y, 0));
            out.push(source_image.channel(x, y, 1));
            out.push(source_image.channel(x, y, 2));
        } else {
            out.push(0);
            out.push(0);
            out.push(0);
        }
        p = p + 1;
    }
    proof {
        assert(out@ =~= goal);
    }
    let r = PixelBuffer { width: target_width, height: target_height, data: out };
    proof {
        assert forall|x: int, y: int, c: int|
            0 <= x < target_width && 0 <= y < target_height && 0 <= c
                < 3 implies #[trigger] r.chan_at(x, y, c) == (if x < source_image.width && y
            < source_image.height {
            source_image.chan_at(x, y, c)
        } else {
            0u8
        }) by {
            lemma_pixel_index_bound(x, y, c, tgw, tgh);
            lemma_chan_index(y * tgw + x, c);
            lemma_raster_index(x, y, tgw);
            if x < sw && y < sh {
                lemma_pixel_index_bound(x, y, c, sw, sh);
            }
        }
    }
    r
}

} // verus!
