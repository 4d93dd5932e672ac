//! An RGB image held in a pixel buffer of the `image` crate.

use vstd::prelude::*;
use image::{ImageBuffer, Rgb, RgbImage};

verus! {

/// An RGB colour, one byte per channel.
pub type Color = (u8, u8, u8);

/// A pixel position: column, then row.
pub type PixelPos = (u32, u32);

/// The colour of ink.
pub open spec fn black() -> Color {
    (0u8, 0u8, 0u8)
}

/// The colour of the empty page.
pub open spec fn white() -> Color {
    (255u8, 255u8, 255u8)
}

/// An RGB image with one byte per channel, held in an `image::RgbImage`.
/// Proofs see it through `canvas_pixels` and `canvas_dimensions` alone.
#[verifier::external_body]
pub struct RgbCanvas {
    buffer: RgbImage,
}

/// What the buffer of a canvas holds: the colour of each pixel, keyed by position.
pub uninterp spec fn canvas_pixels(c: RgbCanvas) -> Map<(u32, u32), (u8, u8, u8)>;

/// The width and height that the buffer of a canvas was made with.
pub uninterp spec fn canvas_dimensions(c: RgbCanvas) -> (u32, u32);

/// Channel `k` (0 red, 1 green, 2 blue) of the colour `c`.
pub open spec fn channel(c: Color, k: int) -> u8 {
    if k == 0 {
        c.0
    } else if k == 1 {
        c.1
    } else {
        c.2
    }
}

/// The samples of a canvas, as its buffer lays them out: pixel by pixel,
/// row after row, red, green and blue for each pixel.
pub open spec fn canvas_samples(c: RgbCanvas) -> Seq<u8> {
    let w = canvas_dimensions(c).0 as int;
    let h = canvas_dimensions(c).1 as int;
    Seq::new(
        (3 * w * h) as nat,
        |k: int| channel(canvas_pixels(c)[(((k / 3) % w) as u32, ((k / 3) / w) as u32)], k % 3),
    )
}

/// The map of a `width` x `height` image whose pixels all have colour `c`.
pub open spec fn uniform_pixels(width: u32, height: u32, c: Color) -> Map<PixelPos, Color> {
    Map::new(|p: PixelPos| p.0 < width && p.1 < height, |p: PixelPos| c)
}

impl RgbCanvas {
    /// The width of the canvas in pixels.
    pub open spec fn width_spec(self) -> u32 {
        canvas_dimensions(self).0
    }

    /// The height of the canvas in pixels.
    pub open spec fn height_spec(self) -> u32 {
        canvas_dimensions(self).1
    }

    /// `ImageBuffer::new` of the `image` crate: a `width` x `height` buffer
    /// whose samples are all zero, so that every pixel is black. The crate
    /// panics where `3 * width * height` overflows `usize`, and a `Vec` of
    /// bytes holds at most `isize::MAX` of them; `requires` leaves both out.
    /// What happens when memory runs out is left unsaid.
    #[verifier::external_body]
    pub(crate) fn new_black(width: u32, height: u32) -> (c: RgbCanvas)
        requires
            3 * (width as int) * (height as int) <= isize::MAX,
        ensures
            canvas_dimensions(c) == (width, height),
            canvas_pixels(c) == uniform_pixels(width, height, (0u8, 0u8, 0u8)),
    {
        RgbCanvas { buffer: ImageBuffer::new(width, height) }
    }

    /// `ImageBuffer::put_pixel` of the `image` crate: the pixel at `(x, y)`
    /// takes the colour `(r, g, b)`; every other pixel and the dimensions stay.
    /// The crate panics outside the image; `requires` leaves that out.
    #[verifier::external_body]
    pub(crate) fn put_pixel(&mut self, x: u32, y: u32, r: u8, g: u8, b: u8)
        requires
            x < canvas_dimensions(*old(self)).0,
            y < canvas_dimensions(*old(self)).1,
        ensures
            canvas_dimensions(*final(self)) == canvas_dimensions(*old(self)),
            canvas_pixels(*final(self)) == canvas_pixels(*old(self)).insert((x, y), (r, g, b)),
    {
        self.buffer.put_pixel(x, y, Rgb([r, g, b]))
    }

    /// `ImageBuffer::get_pixel` of the `image` crate: the colour of the pixel
    /// at `(x, y)`. The crate panics outside the image; `requires` leaves that out.
    #[verifier::external_body]
    fn get_pixel(&self, x: u32, y: u32) -> (c: Color)
        requires
            x < canvas_dimensions(*self).0,
            y < canvas_dimensions(*self).1,
        ensures
            c == canvas_pixels(*self)[(x, y)],
    {
        let p = self.buffer.get_pixel(x, y);
        (p.0[0], p.0[1], p.0[2])
    }

    /// `ImageBuffer::dimensions` of the `image` crate: the width and the
    /// height. The buffer keeps the `3 * width * height` samples of its pixels
    /// in one `Vec<u8>`, which never holds more than `isize::MAX` bytes.
    #[verifier::external_body]
    fn buffer_dimensions(&self) -> (d: (u32, u32))
        ensures
            d == canvas_dimensions(*self),
            3 * (d.0 as int) * (d.1 as int) <= isize::MAX,
    {
        self.buffer.dimensions()
    }

    /// The width and the height of the canvas, in pixels.
    pub fn dimensions(&self) -> (d: (u32, u32))
        ensures
            d == canvas_dimensions(*self),
    {
        self.buffer_dimensions()
    }

    /// The colour of the pixel at `(x, y)`, or `None` outside the canvas.
    pub fn pixel(&self, x: u32, y: u32) -> (c: Option<Color>)
        ensures
            c == (if x < self.width_spec() && y < self.height_spec() {
                Some(canvas_pixels(*self)[(x, y)])
            } else {
                None
            }),
    {
        let (w, h) = self.buffer_dimensions();
        if x < w && y < h {
            Some(self.get_pixel(x, y))
        } else {
            None
        }
    }
}

impl RgbCanvas {
    /// The samples of the canvas, pixel by pixel, row after row, red, green
    /// and blue for each pixel.
    pub fn samples(&self) -> (s: Vec<u8>)
        ensures
            s@ == canvas_samples(*self),
    {
        let (w, h) = self.buffer_dimensions();
        let ghost wi = w as int;
        let ghost hi = h as int;
        assert(wi * hi <= 3 * wi * hi && 3 * (wi * hi) == 3 * wi * hi) by (nonlinear_arith)
            requires 0 <= wi, 0 <= hi;
        let pixels: usize = (w as usize) * (h as usize);
        let total: usize = 3 * pixels;
        let mut out: Vec<u8> = Vec::new();
        let mut k: usize = 0;
        while k < total
            invariant
                k <= total,
                total == 3 * wi * hi,
                wi == canvas_dimensions(*self).0,
                hi == canvas_dimensions(*self).1,
                w == wi,
                h == hi,
                out@ == canvas_samples(*self).take(k as int),
            decreases total - k,
        {
            let p = k / 3;
            let ghost pi = p as int;
            assert(pi < wi * hi && wi > 0 && pi / wi < hi && pi % wi < wi) by (nonlinear_arith)
                requires pi == (k as int) / 3, k < 3 * wi * hi, wi >= 0, hi >= 0;
            let x = (p % (w as usize)) as u32;
            let y = (p / (w as usize)) as u32;
            let (r, g, b) = self.get_pixel(x, y);
            let v = if k % 3 == 0 {
                r
            } else if k % 3 == 1 {
                g
            } else {
                b
            };
            out.push(v);
            k = k + 1;
            assert(out@ =~= canvas_samples(*self).take(k as int));
        }
        assert(canvas_samples(*self).take(total as int) =~= canvas_samples(*self));
        out
    }
}

/// Where each sample sits: the samples of a `width` x `height` canvas are
/// `3 * width * height` bytes, and the byte at `3 * (y * width + x) + k` is
/// channel `k` (red, green, blue) of the pixel at column `x` and row `y`,
/// row 0 being the top row of the pixel map.
pub proof fn lemma_sample_layout(c: RgbCanvas, x: u32, y: u32, k: int)
    requires
        x < c.width_spec(),
        y < c.height_spec(),
        0 <= k < 3,
    ensures
        canvas_samples(c).len() == 3 * (c.width_spec() as int) * (c.height_spec() as int),
        0 <= 3 * ((y as int) * (c.width_spec() as int) + (x as int)) + k < canvas_samples(c).len(),
        canvas_samples(c)[3 * ((y as int) * (c.width_spec() as int) + (x as int)) + k] == channel(
            canvas_pixels(c)[(x, y)],
            k,
        ),
{
    let w = c.width_spec() as int;
    let h = c.height_spec() as int;
    let xi = x as int;
    let yi = y as int;
    let p = yi * w + xi;
    let i = 3 * p + k;
    assert(0 <= p < w * h) by (nonlinear_arith)
        requires 0 <= xi < w, 0 <= yi < h, p == yi * w + xi;
    assert(3 * (w * h) == 3 * w * h) by (nonlinear_arith);
    vstd::arithmetic::div_mod::lemma_fundamental_div_mod_converse(i, 3, p, k);
    assert(i == p * 3 + k);
    vstd::arithmetic::div_mod::lemma_fundamental_div_mod_converse(p, w, yi, xi);
    assert(p == yi * w + xi);
    assert(canvas_samples(c)[i] == channel(canvas_pixels(c)[(((i / 3) % w) as u32, ((i / 3) / w) as u32)], i % 3));
}

} // verus!
