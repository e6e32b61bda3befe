//! The canvas: a fixed-size mutable raster of RGB pixels with
//! bounds-clamped writes, plus encoding to a portable-network-graphics
//! container through the `image` crate.

use vstd::prelude::*;
use crate::color::Rgb;

verus! {

/// The largest canvas edge length the engine accepts; keeps every pixel
/// index within `usize` on all targets.
pub const MAX_DIM: u32 = 0x8000;

/// A mutable 2D grid of RGB pixels, row-major, `width * height` entries.
/// Every pixel holds exactly one color at all times.
pub struct Canvas {
    pub width: u32,
    pub height: u32,
    pub pixels: Vec<Rgb>,
}

/// Row-major indices stay below the buffer length.
proof fn lemma_index_bound(x: int, y: int, w: int, h: int)
    by (nonlinear_arith)
    requires
        0 <= x < w,
        0 <= y < h,
    ensures
        0 <= y * w + x < w * h,
{
}

/// A grid within the dimension limit fits in 32 bits of address space.
proof fn lemma_dims_bound(w: int, h: int)
    by (nonlinear_arith)
    requires
        0 <= w <= MAX_DIM,
        0 <= h <= MAX_DIM,
    ensures
        0 <= w * h <= 0x40000000,
{
}

/// Row-major indexing is injective over in-bounds coordinates.
proof fn lemma_index_inj(x1: int, y1: int, x2: int, y2: int, w: int)
    by (nonlinear_arith)
    requires
        0 <= x1 < w,
        0 <= x2 < w,
        0 <= y1,
        0 <= y2,
        y1 * w + x1 == y2 * w + x2,
    ensures
        x1 == x2 && y1 == y2,
{
}

impl Canvas {
    /// Well-formed: dimensions within the limit and a fully allocated grid.
    pub open spec fn wf(self) -> bool {
        &&& self.width <= MAX_DIM
        &&& self.height <= MAX_DIM
        &&& self.pixels@.len() == self.width * self.height
    }

    /// Is `(x, y)` a pixel of this canvas?
    pub open spec fn in_bounds(self, x: int, y: int) -> bool {
        0 <= x < self.width && 0 <= y < self.height
    }

    /// The color at `(x, y)` (meaningful when `in_bounds`).
    pub open spec fn pix(self, x: int, y: int) -> Rgb {
        self.pixels@[y * self.width + x]
    }

    /// Same width and height as `other`.
    pub open spec fn same_dims(self, other: Canvas) -> bool {
        self.width == other.width && self.height == other.height
    }

    /// A canvas with every pixel set to `background`.
    pub fn new(width: u32, height: u32, background: Rgb) -> (c: Canvas)
        requires
            width <= MAX_DIM,
            height <= MAX_DIM,
        ensures
            c.wf(),
            c.width == width,
            c.height == height,
            forall|x: int, y: int| c.in_bounds(x, y) ==> c.pix(x, y) == background,
    {
        proof {
            lemma_dims_bound(width as int, height as int);
        }
        let n = (width as usize) * (height as usize);
        let mut pixels: Vec<Rgb> = Vec::new();
        let mut i: usize = 0;
        while i < n
            invariant
                i <= n,
                n == width * height,
                pixels@.len() == i,
                forall|k: int| 0 <= k < i ==> pixels@[k] == background,
            decreases n - i,
        {
            pixels.push(background);
            i = i + 1;
        }
        let c = Canvas { width, height, pixels };
        proof {
            assert forall|x: int, y: int| c.in_bounds(x, y) implies c.pix(x, y)
                == background by {
                lemma_index_bound(x, y, width as int, height as int);
            }
        }
        c
    }

    /// Writes `color` at `(x, y)` if and only if the coordinate is in
    /// bounds; out-of-range coordinates are a silent no-op, never an error.
    pub fn put_pixel(&mut self, x: i64, y: i64, color: Rgb)
        requires
            old(self).wf(),
        ensures
            final(self).wf(),
            final(self).same_dims(*old(self)),
            forall|i: int, j: int|
                old(self).in_bounds(i, j) ==> final(self).pix(i, j) == (if i == x && j == y {
                    color
                } else {
                    old(self).pix(i, j)
                }),
    {
        if x >= 0 && y >= 0 && x < self.width as i64 && y < self.height as i64 {
            proof {
                lemma_dims_bound(self.width as int, self.height as int);
                lemma_index_bound(x as int, y as int, self.width as int, self.height as int);
            }
            let idx = (y as usize) * (self.width as usize) + (x as usize);
            self.pixels[idx] = color;
            proof {
                assert forall|i: int, j: int| old(self).in_bounds(i, j) implies self.pix(i, j)
                    == (if i == x && j == y {
                    color
                } else {
                    old(self).pix(i, j)
                }) by {
                    lemma_index_bound(i, j, self.width as int, self.height as int);
                    if i == x && j == y {
                    } else {
                        if j * self.width + i == y * self.width + x {
                            lemma_index_inj(i, j, x as int, y as int, self.width as int);
                        }
                    }
                }
            }
        }
    }

    /// Reads the color at an in-bounds coordinate.
    pub fn get_pixel(&self, x: u32, y: u32) -> (c: Rgb)
        requires
            self.wf(),
            x < self.width,
            y < self.height,
        ensures
            c == self.pix(x as int, y as int),
    {
        proof {
            lemma_dims_bound(self.width as int, self.height as int);
            lemma_index_bound(x as int, y as int, self.width as int, self.height as int);
        }
        let idx = (y as usize) * (self.width as usize) + (x as usize);
        self.pixels[idx]
    }

    /// The raster as flat bytes: three bytes per pixel, row-major.
    pub open spec fn raw_bytes(self) -> Seq<u8> {
        Seq::new(
            (3 * self.pixels@.len()) as nat,
            |k: int|
                {
                    let p = self.pixels@[k / 3];
                    if k % 3 == 0 {
                        p.r
                    } else if k % 3 == 1 {
                        p.g
                    } else {
                        p.b
                    }
                },
        )
    }

    /// Flattens the grid to raw bytes, three per pixel.
    pub fn to_raw_bytes(&self) -> (r: Vec<u8>)
        requires
            self.wf(),
        ensures
            r@ == self.raw_bytes(),
    {
        let mut r: Vec<u8> = Vec::new();
        let mut i: usize = 0;
        let n = self.pixels.len();
        while i < n
            invariant
                i <= n,
                n == self.pixels@.len(),
                r@.len() == 3 * i,
                forall|k: int|
                    0 <= k < 3 * i ==> r@[k] == #[trigger] self.raw_bytes()[k],
            decreases n - i,
        {
            let p = self.pixels[i];
            r.push(p.r);
            r.push(p.g);
            r.push(p.b);
            proof {
                assert forall|k: int| 0 <= k < 3 * (i + 1) implies r@[k]
                    == #[trigger] self.raw_bytes()[k] by {
                    if k >= 3 * i {
                        assert(k / 3 == i && k % 3 == k - 3 * i);
                    }
                }
            }
            i = i + 1;
        }
        proof {
            assert(r@ =~= self.raw_bytes());
        }
        r
    }

    /// Encodes the canvas as a portable-network-graphics byte stream;
    /// the encoder accepts every raster with at least one pixel, so
    /// encoding a non-degenerate canvas always succeeds.
    pub fn encode_png(&self) -> (r: Option<Vec<u8>>)
        requires
            self.wf(),
        ensures
            r matches Some(b) ==> b@ == png_bytes(self.width, self.height, self.raw_bytes()),
            self.width >= 1 && self.height >= 1 ==> r is Some,
    {
        let raw = self.to_raw_bytes();
        proof {
            assert(raw@.len() == 3 * (self.width * self.height));
            assert(3 * (self.width * self.height) == 3 * self.width * self.height) by (nonlinear_arith);
        }
        png_encode_raw(self.width, self.height, raw)
    }
}

/// The byte stream the `image` crate's PNG encoder produces for a raster
/// of the given dimensions and raw RGB bytes; it depends on those alone.
pub uninterp spec fn png_bytes(width: u32, height: u32, raw: Seq<u8>) -> Seq<u8>;

/// Relies on `image::RgbImage::from_raw` (which checks that the buffer
/// holds at least three bytes per pixel, so it accepts the exact
/// length) and `ImageBuffer::write_to` with
/// `image::ImageOutputFormat::Png`: the encoder writes into an
/// in-memory buffer, fails only on a zero dimension or a short buffer,
/// and its output depends only on the dimensions and raw bytes.
#[verifier::external_body]
fn png_encode_raw(width: u32, height: u32, raw: Vec<u8>) -> (r: Option<Vec<u8>>)
    ensures
        r matches Some(b) ==> b@ == png_bytes(width, height, raw@),
        width >= 1 && height >= 1 && raw@.len() == 3 * width * height ==> r is Some,
{
    let img = image::RgbImage::from_raw(width, height, raw)?;
    let mut buffer: Vec<u8> = Vec::new();
    let mut cursor = std::io::Cursor::new(&mut buffer);
    match img.write_to(&mut cursor, image::ImageOutputFormat::Png) {
        Ok(()) => Some(buffer),
        Err(_) => None,
    }
}

} // verus!
