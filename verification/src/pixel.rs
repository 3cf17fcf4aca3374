//! The shared data model: a width x height grid of 3-channel (R, G, B),
//! 8-bit-per-channel pixels in row-major order, and the error taxonomy of
//! the codec operations.

use vstd::prelude::*;

verus! {

/// The deterministic, input-driven failure conditions of the codec.
#[derive(Debug, Clone, Copy, PartialEq, Eq, Structural)]
pub enum StegoError {
    /// The secret image is larger than the carrier and no reconciliation
    /// policy was selected.
    SizeMismatch,
    /// The text payload plus its length prefix exceeds the available pixels.
    InsufficientCapacity,
    /// Fewer than 32 pixels are available, too few for a length prefix.
    ImageTooSmall,
}

/// An RGB image: `width * height` pixels, three bytes each, row-major.
/// Channel `c` (0 red, 1 green, 2 blue) of the pixel at `(x, y)` is
/// `data[3 * (y * width + x) + c]`.
#[derive(Debug)]
pub struct PixelBuffer {
    pub width: u32,
    pub height: u32,
    pub data: Vec<u8>,
}

impl PixelBuffer {
    /// Well-formed: positive dimensions and exactly three bytes per pixel.
    pub open spec fn wf(self) -> bool {
        &&& self.width > 0
        &&& self.height > 0
        &&& self.data@.len() == 3 * (self.width as int) * (self.height as int)
    }

    /// Number of pixels.
    pub open spec fn pixels(self) -> int {
        (self.width as int) * (self.height as int)
    }

    /// Channel `c` of the pixel at flat raster index `p`.
    pub open spec fn chan(self, p: int, c: int) -> u8 {
        self.data@[3 * p + c]
    }

    /// Channel `c` of the pixel at `(x, y)`.
    pub open spec fn chan_at(self, x: int, y: int, c: int) -> u8 {
        self.chan(y * (self.width as int) + x, c)
    }

    /// A well-formed buffer holds at least one pixel, and its byte count
    /// is exactly three times its pixel count.
    pub proof fn lemma_wf_bounds(self)
        requires
            self.wf(),
        ensures
            self.pixels() >= 1,
            self.data@.len() == 3 * self.pixels(),
            self.data@.len() >= 3,
    {
        assert((self.width as int) * (self.height as int) >= 1) by (nonlinear_arith)
            requires
                self.width >= 1,
                self.height >= 1,
        ;
        assert(3 * (self.width as int) * (self.height as int) == 3 * ((self.width as int)
            * (self.height as int))) by (nonlinear_arith);
    }

    /// Builds a buffer from raw bytes; `None` unless the dimensions are
    /// positive and the byte count is exactly three per pixel.
    pub fn from_raw(width: u32, height: u32, data: Vec<u8>) -> (r: Option<PixelBuffer>)
        ensures
            r is Some <==> (width > 0 && height > 0 && data@.len() == 3 * (width as int) * (height
                as int)),
            r matches Some(b) ==> b.wf() && b.width == width && b.height == height && b.data@
                == data@,
    {
        proof {
            assert(3u128 * (width as u128) * (height as u128) < u128::MAX) by (nonlinear_arith)
                requires
                    width <= u32::MAX,
                    height <= u32::MAX,
            ;
        }
        if width > 0 && height > 0 && (data.len() as u128) == 3u128 * (width as u128) * (height
            as u128) {
            Some(PixelBuffer { width, height, data })
        } else {
            None
        }
    }

    /// Reads channel `c` (0 red, 1 green, 2 blue) of the pixel at `(x, y)`.
    pub fn channel(&self, x: u32, y: u32, c: u32) -> (r: u8)
        requires
            self.wf(),
            x < self.width,
            y < self.height,
            c < 3,
        ensures
            r == self.chan_at(x as int, y as int, c as int),
    {
        // binding the length as a usize bounds the index arithmetic below
        let n: usize = self.data.len();
        proof {
            lemma_pixel_index_bound(x as int, y as int, c as int, self.width as int, self.height
                as int);
            self.lemma_wf_bounds();
        }
        let p: usize = (y as usize) * (self.width as usize) + (x as usize);
        self.data[3 * p + (c as usize)]
    }

    /// Returns a buffer with the same dimensions and the same bytes.
    pub fn duplicate(&self) -> (r: PixelBuffer)
        ensures
            r.width == self.width,
            r.height == self.height,
            r.data@ == self.data@,
    {
        let mut bytes: Vec<u8> = Vec::new();
        let mut i: usize = 0;
        while i < self.data.len()
            invariant
                i <= self.data@.len(),
                bytes@ == self.data@.take(i as int),
            decreases self.data@.len() - i,
        {
            bytes.push(self.data[i]);
            i = i + 1;
            proof {
                assert(bytes@ =~= self.data@.take(i as int));
            }
        }
        proof {
            assert(bytes@ =~= self.data@);
        }
        PixelBuffer { width: self.width, height: self.height, data: bytes }
    }
}

/// Raster addressing stays inside the buffer: for `x < w` and `y < h`,
/// the flat channel index `3 * (y * w + x) + c` is below `3 * w * h`.
pub proof fn lemma_pixel_index_bound(x: int, y: int, c: int, w: int, h: int)
    by (nonlinear_arith)
    requires
        0 <= x < w,
        0 <= y < h,
        0 <= c < 3,
    ensures
        0 <= y * w + x < w * h,
        0 <= 3 * (y * w + x) + c < 3 * w * h,
{
}

/// A flat channel index decomposes uniquely into a pixel and a channel.
pub proof fn lemma_chan_index(p: int, c: int)
    requires
        0 <= p,
        0 <= c < 3,
    ensures
        (3 * p + c) / 3 == p,
        (3 * p + c) % 3 == c,
{
    vstd::arithmetic::div_mod::lemma_fundamental_div_mod_converse(3 * p + c, 3, p, c);
}

/// A flat raster index decomposes uniquely into a row and a column.
pub proof fn lemma_raster_index(x: int, y: int, w: int)
    requires
        0 <= x < w,
        0 <= y,
    ensures
        (y * w + x) / w == y,
        (y * w + x) % w == x,
{
    vstd::arithmetic::div_mod::lemma_fundamental_div_mod_converse(y * w + x, w, y, x);
}

} // verus!
