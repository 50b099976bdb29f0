//! An image on its way through the processing stages.

use crate::color::{Palette, Rgb};
use crate::histogram::{countable, histogram_of, total_count, RgbHistogram};
use crate::image_processing::remapped;
use crate::palette_generator::{generated_palette, palette_size_fits};
use crate::resample::{lemma_rounded_ratio_error, rounded_ratio, scale_fits, FilterType};
use crate::rgb_image::{pixels_of, RgbImage};
use vstd::prelude::*;

verus! {

/// An RGB image together with the operations of the conversion: each one
/// replaces the pixel buffer as a whole.
pub struct ProcessedImage {
    pub data: RgbImage,
}

impl ProcessedImage {
    /// A `width` x `height` image from the first `width * height` colours
    /// of `buffer`, row by row.
    pub fn from_buffer(width: u32, height: u32, buffer: &[Rgb]) -> (image: ProcessedImage)
        requires
            buffer@.len() >= width * height,
        ensures
            image.data.well_formed(),
            image.data@.width == width,
            image.data@.height == height,
            image.data@.pixels == buffer@.take(width * height),
    {
        assert(0 <= width * height <= 0xFFFF_FFFF * 0xFFFF_FFFF) by (nonlinear_arith)
            requires
                0 <= width <= 0xFFFF_FFFF,
                0 <= height <= 0xFFFF_FFFF,
        ;
        assert(3 * width * height == 3 * (width * height)) by (nonlinear_arith);
        let len: usize = buffer.len();
        let n: usize = (width as u64 * height as u64) as usize;
        let mut data: Vec<u8> = Vec::new();
        let mut i: usize = 0;
        while i < n
            invariant
                i <= n,
                n <= buffer@.len(),
                data@.len() == 3 * i,
                forall|k: int|
                    0 <= k < i ==> data@[3 * k] == (#[trigger] buffer@[k]).r && data@[3 * k + 1]
                        == buffer@[k].g && data@[3 * k + 2] == buffer@[k].b,
            decreases n - i,
        {
            let color = buffer[i];
            data.push(color.r);
            data.push(color.g);
            data.push(color.b);
            i += 1;
        }
        assert(pixels_of(data@) =~= buffer@.take(width * height));
        ProcessedImage { data: RgbImage::from_raw(width, height, data).unwrap() }
    }

    /// How often each colour occurs in the image; see
    /// `image_processing::get_color_histogram`.
    pub fn get_color_histogram(&self) -> (histogram: RgbHistogram)
        requires
            countable(self.data@.pixels),
        ensures
            histogram@ == histogram_of(self.data@.pixels),
            total_count(histogram@) == self.data@.width * self.data@.height,
    {
        crate::histogram::get_color_histogram(&self.data)
    }

    /// A palette of `number_of_colors` colours adapted to the image; see
    /// `image_processing::generate_image_palette`.
    pub fn generate_image_palette(&self, sample_factor: i32, number_of_colors: usize) -> (palette:
        Palette)
        requires
            sample_factor >= 1,
            palette_size_fits(number_of_colors as int),
        ensures
            palette@ == generated_palette(
                self.data@.pixels,
                sample_factor as int,
                number_of_colors as int,
            ),
            palette@.len() == number_of_colors,
    {
        crate::palette_generator::generate_image_palette(&self.data, sample_factor, number_of_colors)
    }

    /// Replaces every pixel by the nearest colour of `palette`; the
    /// dimensions stay.
    pub fn apply_palette(&mut self, palette: &Palette)
        requires
            old(self).data@.pixels.len() > 0 ==> palette@.len() > 0,
        ensures
            final(self).data.well_formed(),
            final(self).data@.width == old(self).data@.width,
            final(self).data@.height == old(self).data@.height,
            final(self).data@.pixels == remapped(old(self).data@.pixels, palette@),
            forall|i: int|
                0 <= i < final(self).data@.pixels.len() ==> palette@.contains(
                    #[trigger] final(self).data@.pixels[i],
                ),
    {
        self.data = crate::image_processing::apply_palette(&self.data, palette);
    }

    /// Resamples the image to exactly `new_width` x `new_height`, with the
    /// Lanczos filter when `smooth` is set and nearest-neighbour otherwise.
    /// Keeping the dimensions keeps the image. Nearest-neighbour makes no
    /// new colour: every pixel afterwards is a pixel of the image before.
    pub fn scale(&mut self, new_width: u32, new_height: u32, smooth: bool)
        requires
            scale_fits(
                old(self).data@.width as int,
                old(self).data@.height as int,
                new_width as int,
                new_height as int,
            ),
        ensures
            final(self).data.well_formed(),
            final(self).data@.width == new_width,
            final(self).data@.height == new_height,
            final(self).data@.pixels.len() == new_width * new_height,
            (new_width == old(self).data@.width && new_height == old(self).data@.height)
                ==> final(self).data@ == old(self).data@,
            (!smooth && old(self).data@.width > 0 && old(self).data@.height > 0) ==> forall|i: int|
                0 <= i < final(self).data@.pixels.len() ==> old(self).data@.pixels.contains(
                    #[trigger] final(self).data@.pixels[i],
                ),
    {
        let filter = if smooth {
            FilterType::Lanczos3
        } else {
            FilterType::Nearest
        };
        self.data = crate::resample::scale(&self.data, new_width, new_height, filter);
    }

    /// Resamples to `new_width` columns and the number of rows that keeps
    /// the aspect ratio, rounded to the nearest whole row: the new height
    /// is within one pixel of `height * new_width / width`.
    pub fn uniform_scale_width(&mut self, new_width: u32, smooth: bool)
        requires
            old(self).data@.width > 0,
            rounded_ratio(
                old(self).data@.height as int,
                new_width as int,
                old(self).data@.width as int,
            ) <= u32::MAX,
            scale_fits(
                old(self).data@.width as int,
                old(self).data@.height as int,
                new_width as int,
                rounded_ratio(
                    old(self).data@.height as int,
                    new_width as int,
                    old(self).data@.width as int,
                ),
            ),
        ensures
            final(self).data.well_formed(),
            final(self).data@.width == new_width,
            final(self).data@.height == rounded_ratio(
                old(self).data@.height as int,
                new_width as int,
                old(self).data@.width as int,
            ),
            -old(self).data@.width <= final(self).data@.height * old(self).data@.width
                - old(self).data@.height * new_width <= old(self).data@.width,
            (!smooth && old(self).data@.height > 0) ==> forall|i: int|
                0 <= i < final(self).data@.pixels.len() ==> old(self).data@.pixels.contains(
                    #[trigger] final(self).data@.pixels[i],
                ),
    {
        let (width, height) = self.data.dimensions();
        let new_height = crate::resample::scaled_dimension(height, new_width, width).unwrap();
        proof {
            lemma_rounded_ratio_error(height as int, new_width as int, width as int);
        }
        self.scale(new_width, new_height, smooth);
    }

    /// Resamples to `new_height` rows and the number of columns that keeps
    /// the aspect ratio, rounded to the nearest whole column: the new width
    /// is within one pixel of `width * new_height / height`.
    pub fn uniform_scale_height(&mut self, new_height: u32, smooth: bool)
        requires
            old(self).data@.height > 0,
            rounded_ratio(
                old(self).data@.width as int,
                new_height as int,
                old(self).data@.height as int,
            ) <= u32::MAX,
            scale_fits(
                old(self).data@.width as int,
                old(self).data@.height as int,
                rounded_ratio(
                    old(self).data@.width as int,
                    new_height as int,
                    old(self).data@.height as int,
                ),
                new_height as int,
            ),
        ensures
            final(self).data.well_formed(),
            final(self).data@.height == new_height,
            final(self).data@.width == rounded_ratio(
                old(self).data@.width as int,
                new_height as int,
                old(self).data@.height as int,
            ),
            -old(self).data@.height <= final(self).data@.width * old(self).data@.height
                - old(self).data@.width * new_height <= old(self).data@.height,
            (!smooth && old(self).data@.width > 0) ==> forall|i: int|
                0 <= i < final(self).data@.pixels.len() ==> old(self).data@.pixels.contains(
                    #[trigger] final(self).data@.pixels[i],
                ),
    {
        let (width, height) = self.data.dimensions();
        let new_width = crate::resample::scaled_dimension(width, new_height, height).unwrap();
        proof {
            lemma_rounded_ratio_error(width as int, new_height as int, height as int);
        }
        self.scale(new_width, new_height, smooth);
    }

    /// Number of columns.
    pub fn width(&self) -> (w: u32)
        ensures
            w == self.data@.width,
    {
        self.data.width()
    }

    /// Number of rows.
    pub fn height(&self) -> (h: u32)
        ensures
            h == self.data@.height,
    {
        self.data.height()
    }
}

} // verus!
