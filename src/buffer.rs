use image::Pixel;
use vstd::prelude::*;

verus! {

/// Luma below this value marks a pixel as part of the dark border.
pub const BACKGROUND_THRESHOLD: u8 = 16;

/// Luma of an 8-bit RGB pixel with the sRGB weights 0.2126, 0.7152 and
/// 0.0722, rounded down.
pub open spec fn luma_spec(r: u8, g: u8, b: u8) -> int {
    (2126 * r + 7152 * g + 722 * b) / 10000
}

/// Position of channel `c` of pixel `(x, y)` in a row-major buffer that is
/// `w` pixels wide, three channels per pixel.
pub open spec fn channel_index(w: int, x: int, y: int, c: int) -> int {
    (y * w + x) * 3 + c
}

/// Relies on image's `Rgb::to_luma` for `u8` channels, which computes
/// `(2126 * r + 7152 * g + 722 * b) / 10000` in `u32`.
#[verifier::external_body]
fn rgb_luma(r: u8, g: u8, b: u8) -> (l: u8)
    ensures
        l == luma_spec(r, g, b),
{
    image::Rgb([r, g, b]).to_luma().0[0]
}

/// An owned grid of `width * height` pixels with three 8-bit channels each
/// (red, green, blue), stored row-major from the top-left corner.
#[derive(Debug)]
pub struct PixelBuffer {
    pub width: u32,
    pub height: u32,
    pub data: Vec<u8>,
}

impl PixelBuffer {
    /// The data holds exactly three channels for every pixel.
    pub open spec fn wf(&self) -> bool {
        self.data@.len() == self.width * self.height * 3
    }

    /// Channel `c` of the pixel in column `x` and row `y`.
    pub open spec fn channel(&self, x: int, y: int, c: int) -> u8 {
        self.data@[channel_index(self.width as int, x, y, c)]
    }

    /// The pixel at `(x, y)` is bright enough to count as picture content.
    pub open spec fn is_content(&self, x: int, y: int) -> bool {
        luma_spec(self.channel(x, y, 0), self.channel(x, y, 1), self.channel(x, y, 2))
            >= BACKGROUND_THRESHOLD
    }

    /// Every pixel of row `y` belongs to the background.
    pub open spec fn row_is_background(&self, y: int) -> bool {
        forall|x: int| 0 <= x < self.width ==> !#[trigger] self.is_content(x, y)
    }

    /// Some pixel of the buffer is content.
    pub open spec fn has_content(&self) -> bool {
        exists|x: int, y: int|
            0 <= x < self.width && 0 <= y < self.height && #[trigger] self.is_content(x, y)
    }

    /// Wraps raw channel data; `None` when its length is not
    /// `width * height * 3`.
    pub fn from_raw(width: u32, height: u32, data: Vec<u8>) -> (r: Option<PixelBuffer>)
        ensures
            r.is_some() <==> data@.len() == width * height * 3,
            r matches Some(b) ==> b.wf() && b.width == width && b.height == height && b.data@
                == data@,
    {
        let n = data.len() as u128;
        if n % 3 != 0 {
            return None;
        }
        assert(width as u64 * height as u64 <= u32::MAX as u64 * u32::MAX as u64) by (nonlinear_arith);
        let wh: u64 = width as u64 * height as u64;
        if wh as u128 == n / 3 {
            Some(PixelBuffer { width, height, data })
        } else {
            None
        }
    }

    /// Hands back the channel data.
    pub fn into_raw(self) -> (r: Vec<u8>)
        ensures
            r@ == self.data@,
    {
        self.data
    }

    /// Whether the pixel at `(x, y)` is content rather than background.
    pub fn content_at(&self, x: u32, y: u32) -> (r: bool)
        requires
            self.wf(),
            x < self.width,
            y < self.height,
        ensures
            r == self.is_content(x as int, y as int),
    {
        let i = self.index_of(x, y);
        let l = rgb_luma(self.data[i], self.data[i + 1], self.data[i + 2]);
        l >= BACKGROUND_THRESHOLD
    }

    /// Position of the first channel of pixel `(x, y)` in the data.
    pub fn index_of(&self, x: u32, y: u32) -> (i: usize)
        requires
            self.wf(),
            x < self.width,
            y < self.height,
        ensures
            i == channel_index(self.width as int, x as int, y as int, 0),
            i + 3 <= self.data@.len() <= usize::MAX,
    {
        let n = self.data.len();
        proof {
            lemma_index_in_bounds(self.width as int, self.height as int, x as int, y as int);
        }
        let row_start = y as usize * self.width as usize;
        (row_start + x as usize) * 3
    }
}

/// Every channel of a pixel inside a `w` by `h` grid lies inside the data.
pub proof fn lemma_index_in_bounds(w: int, h: int, x: int, y: int)
    requires
        0 <= x < w,
        0 <= y < h,
    ensures
        0 <= y * w,
        0 <= y * w + x < w * h,
        channel_index(w, x, y, 0) + 3 <= w * h * 3,
{
    assert(y * w + x < w * h) by (nonlinear_arith)
        requires
            0 <= x < w,
            0 <= y < h,
    {
        assert(y * w + x < y * w + w);
        assert(y * w + w == (y + 1) * w);
        assert((y + 1) * w <= h * w);
    }
    assert(0 <= y * w) by (nonlinear_arith)
        requires
            0 <= x < w,
            0 <= y < h,
    ;
}

} // verus!
