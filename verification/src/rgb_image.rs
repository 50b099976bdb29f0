//! A rectangular buffer of RGB pixels, stored row by row as channel bytes.

use crate::color::Rgb;
use vstd::prelude::*;

verus! {

/// What an image is: its dimensions and its pixels in row-major order.
pub struct ImageView {
    pub width: nat,
    pub height: nat,
    pub pixels: Seq<Rgb>,
}

/// The pixels that a run of channel bytes spells, three bytes to a pixel.
pub open spec fn pixels_of(bytes: Seq<u8>) -> Seq<Rgb> {
    Seq::new(
        (bytes.len() / 3) as nat,
        |i: int| Rgb { r: bytes[3 * i], g: bytes[3 * i + 1], b: bytes[3 * i + 2] },
    )
}

/// The channel bytes of a run of pixels: `r`, `g`, `b` of each in turn.
pub open spec fn bytes_of(pixels: Seq<Rgb>) -> Seq<u8> {
    Seq::new(
        3 * pixels.len(),
        |k: int|
            if k % 3 == 0 {
                pixels[k / 3].r
            } else if k % 3 == 1 {
                pixels[k / 3].g
            } else {
                pixels[k / 3].b
            },
    )
}

/// Bytes whose count is a multiple of three are the bytes of their pixels.
pub proof fn lemma_bytes_of_pixels_of(bytes: Seq<u8>)
    requires
        bytes.len() % 3 == 0,
    ensures
        bytes_of(pixels_of(bytes)) == bytes,
{
    assert(bytes_of(pixels_of(bytes)) =~= bytes);
}

/// A `width` x `height` grid of RGB pixels. The buffer always holds exactly
/// `3 * width * height` bytes.
pub struct RgbImage {
    width: u32,
    height: u32,
    data: Vec<u8>,
}

impl View for RgbImage {
    type V = ImageView;

    closed spec fn view(&self) -> ImageView {
        ImageView {
            width: self.width as nat,
            height: self.height as nat,
            pixels: pixels_of(self.data@),
        }
    }
}

impl RgbImage {
    /// The buffer has one pixel for each position of the grid.
    #[verifier::type_invariant]
    pub closed spec fn well_formed(&self) -> bool {
        self.data@.len() == 3 * self.width * self.height
    }

    /// The channel bytes behind the image.
    pub closed spec fn raw(&self) -> Seq<u8> {
        self.data@
    }

    /// A well-formed image has `width * height` pixels, and its bytes are
    /// those of its pixels.
    pub proof fn lemma_well_formed(&self)
        requires
            self.well_formed(),
        ensures
            self@.pixels.len() == self@.width * self@.height,
            self.raw().len() == 3 * self@.width * self@.height,
            self.raw() == bytes_of(self@.pixels),
            self@.pixels == pixels_of(self.raw()),
            self@.width <= u32::MAX,
            self@.height <= u32::MAX,
    {
        assert(3 * self.width * self.height == 3 * (self.width * self.height))
            by (nonlinear_arith);
        lemma_bytes_of_pixels_of(self.data@);
    }

    /// Takes over `data` as a `width` x `height` image; `None` unless it
    /// holds exactly `3 * width * height` bytes.
    pub fn from_raw(width: u32, height: u32, data: Vec<u8>) -> (image: Option<RgbImage>)
        ensures
            image.is_some() <==> data@.len() == 3 * width * height,
            image matches Some(img) ==> {
                &&& img.well_formed()
                &&& img@.width == width
                &&& img@.height == height
                &&& img@.pixels == pixels_of(data@)
                &&& img.raw() == data@
            },
    {
        assert(0 <= width * height <= 0xFFFF_FFFF * 0xFFFF_FFFF) by (nonlinear_arith)
            requires
                0 <= width <= 0xFFFF_FFFF,
                0 <= height <= 0xFFFF_FFFF,
        ;
        assert(3 * width * height == 3 * (width * height)) by (nonlinear_arith);
        let pixel_count: u64 = width as u64 * height as u64;
        if data.len() as u128 == 3 * (pixel_count as u128) {
            Some(RgbImage { width, height, data })
        } else {
            None
        }
    }

    /// Number of columns.
    pub fn width(&self) -> (w: u32)
        ensures
            w == self@.width,
    {
        self.width
    }

    /// Number of rows.
    pub fn height(&self) -> (h: u32)
        ensures
            h == self@.height,
    {
        self.height
    }

    /// `(width, height)`.
    pub fn dimensions(&self) -> (d: (u32, u32))
        ensures
            d.0 == self@.width,
            d.1 == self@.height,
    {
        (self.width, self.height)
    }

    /// The channel bytes, row by row: `r`, `g`, `b` of each pixel in turn.
    pub fn as_raw(&self) -> (bytes: &Vec<u8>)
        ensures
            bytes@ == self.raw(),
            bytes@ == bytes_of(self@.pixels),
            bytes@.len() == 3 * self@.width * self@.height,
            self.well_formed(),
    {
        proof {
            use_type_invariant(self);
            self.lemma_well_formed();
        }
        &self.data
    }

    /// Gives up the image for its channel bytes.
    pub fn into_raw(self) -> (bytes: Vec<u8>)
        ensures
            bytes@ == self.raw(),
            bytes@ == bytes_of(self@.pixels),
            bytes@.len() == 3 * self@.width * self@.height,
    {
        proof {
            use_type_invariant(&self);
            self.lemma_well_formed();
        }
        self.data
    }

    /// The pixel in column `x` of row `y`.
    pub fn get_pixel(&self, x: u32, y: u32) -> (pixel: Rgb)
        requires
            x < self@.width,
            y < self@.height,
        ensures
            pixel == self@.pixels[y * self@.width + x],
    {
        proof {
            use_type_invariant(self);
        }
        let w: usize = self.width as usize;
        assert(0 <= y * self.width && y * self.width + x < self.width * self.height)
            by (nonlinear_arith)
            requires
                0 <= x < self.width,
                0 <= y < self.height,
        ;
        assert(3 * self.width * self.height == 3 * (self.width * self.height))
            by (nonlinear_arith);
        let len: usize = self.data.len();
        assert(3 * (y * self.width + x) + 2 < len);
        let i: usize = y as usize * w + x as usize;
        Rgb { r: self.data[3 * i], g: self.data[3 * i + 1], b: self.data[3 * i + 2] }
    }
}

} // verus!
