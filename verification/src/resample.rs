//! Resampling an image to new dimensions, done by the `image` crate, and
//! the arithmetic of aspect-preserving scaling.

use crate::rgb_image::{pixels_of, RgbImage};
use vstd::arithmetic::div_mod::{lemma_fundamental_div_mod, lemma_mod_bound};
use vstd::prelude::*;

verus! {

/// The interpolation kernel used when resampling.
#[derive(Clone, Copy, Debug, PartialEq, Eq)]
pub enum FilterType {
    /// Nearest neighbour.
    Nearest,
    /// Linear interpolation.
    Triangle,
    /// Cubic interpolation.
    CatmullRom,
    /// Gaussian.
    Gaussian,
    /// Lanczos with window 3.
    Lanczos3,
}

/// The image is truly resampled: it has pixels and the dimensions change.
pub open spec fn resampled(width: int, height: int, new_width: int, new_height: int) -> bool {
    width > 0 && height > 0 && (new_width != width || new_height != height)
}

/// Whether resampling a `width` x `height` image to `new_width` x
/// `new_height` stays within what can be addressed and allocated. A row of
/// the source and a row of the result, at three bytes per pixel, must have
/// a length, also where there are no rows; the result must be allocatable.
/// A true resampling passes through a `width` x `new_height` buffer of
/// four 4-byte channels per pixel, of which the same holds.
pub open spec fn scale_fits(width: int, height: int, new_width: int, new_height: int) -> bool {
    &&& 3 * width <= usize::MAX
    &&& 3 * new_width <= usize::MAX
    &&& 3 * new_width * new_height <= isize::MAX
    &&& resampled(width, height, new_width, new_height) ==> {
        &&& 4 * width <= usize::MAX
        &&& 16 * width * new_height <= isize::MAX
    }
}

/// Calls `image::imageops::resize` on the image that `data` spells.
///
/// Not proved: that the call returns on these arguments, with three bytes
/// for each pixel of the new grid; that it copies the image when the
/// dimensions stay the same; that an image without pixels gives an
/// all-zero result; and that the nearest-neighbour filter takes every
/// pixel of the result from the source, as it stands. Nothing is claimed
/// of the colours under the other filters: they come from floating-point
/// kernels.
#[verifier::external_body]
fn resize_raw(
    width: u32,
    height: u32,
    data: &Vec<u8>,
    new_width: u32,
    new_height: u32,
    filter: FilterType,
) -> (out: Vec<u8>)
    requires
        data@.len() == 3 * width * height,
        scale_fits(width as int, height as int, new_width as int, new_height as int),
    ensures
        out@.len() == 3 * new_width * new_height,
        (new_width == width && new_height == height) ==> out@ == data@,
        (width == 0 || height == 0) ==> forall|i: int| 0 <= i < out@.len() ==> out@[i] == 0,
        (filter is Nearest && width > 0 && height > 0) ==> forall|i: int|
            0 <= i < pixels_of(out@).len() ==> pixels_of(data@).contains(
                #[trigger] pixels_of(out@)[i],
            ),
{
    let source = image::ImageBuffer::<image::Rgb<u8>, &[u8]>::from_raw(width, height, data).unwrap();
    let kind = match filter {
        FilterType::Nearest => image::imageops::FilterType::Nearest,
        FilterType::Triangle => image::imageops::FilterType::Triangle,
        FilterType::CatmullRom => image::imageops::FilterType::CatmullRom,
        FilterType::Gaussian => image::imageops::FilterType::Gaussian,
        FilterType::Lanczos3 => image::imageops::FilterType::Lanczos3,
    };
    image::imageops::resize(&source, new_width, new_height, kind).into_raw()
}

/// Decides `scale_fits` for the given dimensions.
pub fn can_scale(width: u32, height: u32, new_width: u32, new_height: u32) -> (fits: bool)
    ensures
        fits == scale_fits(width as int, height as int, new_width as int, new_height as int),
{
    let limit: u128 = isize::MAX as u128;
    let reach: u128 = usize::MAX as u128;
    assert(0 <= new_width * new_height <= 0xFFFF_FFFF * 0xFFFF_FFFF) by (nonlinear_arith)
        requires
            0 <= new_width <= 0xFFFF_FFFF,
            0 <= new_height <= 0xFFFF_FFFF,
    ;
    assert(0 <= width * new_height <= 0xFFFF_FFFF * 0xFFFF_FFFF) by (nonlinear_arith)
        requires
            0 <= width <= 0xFFFF_FFFF,
            0 <= new_height <= 0xFFFF_FFFF,
    ;
    assert(3 * new_width * new_height == 3 * (new_width * new_height)) by (nonlinear_arith);
    assert(16 * width * new_height == 16 * (width * new_height)) by (nonlinear_arith);
    let result_pixels: u128 = new_width as u128 * new_height as u128;
    let pass_pixels: u128 = width as u128 * new_height as u128;
    let truly = width > 0 && height > 0 && (new_width != width || new_height != height);
    3 * (width as u128) <= reach && 3 * (new_width as u128) <= reach && 3 * result_pixels <= limit
        && (!truly || (4 * (width as u128) <= reach && 16 * pass_pixels <= limit))
}

/// Resamples `img` to exactly `new_width` x `new_height` with the given
/// filter. The filter decides the colours, never the dimensions. Keeping
/// the dimensions returns the same image under every filter, and an image
/// without pixels becomes an all-black one. The nearest-neighbour filter
/// makes no new colour: every pixel of its result is a pixel of `img`.
pub fn scale(img: &RgbImage, new_width: u32, new_height: u32, filter: FilterType) -> (out: RgbImage)
    requires
        scale_fits(img@.width as int, img@.height as int, new_width as int, new_height as int),
    ensures
        out.well_formed(),
        out@.width == new_width,
        out@.height == new_height,
        out@.pixels.len() == new_width * new_height,
        (new_width == img@.width && new_height == img@.height) ==> out@ == img@,
        (img@.width == 0 || img@.height == 0) ==> forall|i: int|
            0 <= i < out@.pixels.len() ==> out@.pixels[i] == (crate::color::Rgb { r: 0, g: 0, b: 0 }),
        (filter is Nearest && img@.width > 0 && img@.height > 0) ==> forall|i: int|
            0 <= i < out@.pixels.len() ==> img@.pixels.contains(#[trigger] out@.pixels[i]),
{
    let resized = resize_raw(img.width(), img.height(), img.as_raw(), new_width, new_height, filter);
    let out = RgbImage::from_raw(new_width, new_height, resized).unwrap();
    proof {
        img.lemma_well_formed();
        out.lemma_well_formed();
        assert(3 * new_width * new_height == 3 * (new_width * new_height)) by (nonlinear_arith);
        if new_width == img@.width && new_height == img@.height {
            assert(out@ == img@);
        }
    }
    out
}

/// `length * target / source` rounded to the nearest whole number, halves
/// upwards: the length that keeps the aspect ratio when the other side goes
/// from `source` to `target`.
pub open spec fn rounded_ratio(length: int, target: int, source: int) -> int {
    (2 * length * target + source) / (2 * source)
}

/// Rounding keeps the scaled length within half a pixel of the exact
/// ratio, so well within one pixel: multiplied through by `source`, the
/// difference between `rounded_ratio * source` and `length * target` is at
/// most `source / 2`.
pub proof fn lemma_rounded_ratio_error(length: int, target: int, source: int)
    requires
        source > 0,
        length >= 0,
        target >= 0,
    ensures
        rounded_ratio(length, target, source) >= 0,
        -source <= 2 * (rounded_ratio(length, target, source) * source - length * target)
            <= source,
        -source <= rounded_ratio(length, target, source) * source - length * target <= source,
{
    let n = 2 * length * target + source;
    let d = 2 * source;
    let q = n / d;
    assert(2 * length * target >= 0) by (nonlinear_arith)
        requires
            length >= 0,
            target >= 0,
    ;
    lemma_fundamental_div_mod(n, d);
    lemma_mod_bound(n, d);
    assert(d * q == 2 * (q * source)) by (nonlinear_arith)
        requires
            d == 2 * source,
    ;
    assert(2 * length * target == 2 * (length * target)) by (nonlinear_arith);
    assert(q >= 0) by (nonlinear_arith)
        requires
            n >= 0,
            d > 0,
            n == d * q + n % d,
            0 <= n % d < d,
    ;
}

/// Computes `rounded_ratio(length, target, source)`; `None` when `source`
/// is zero or the result does not fit in 32 bits.
pub fn scaled_dimension(length: u32, target: u32, source: u32) -> (scaled: Option<u32>)
    ensures
        scaled.is_some() <==> source > 0 && rounded_ratio(length as int, target as int, source as int)
            <= u32::MAX,
        scaled matches Some(s) ==> s == rounded_ratio(length as int, target as int, source as int),
{
    if source == 0 {
        return None;
    }
    assert(0 <= length * target <= 0xFFFF_FFFF * 0xFFFF_FFFF) by (nonlinear_arith)
        requires
            0 <= length <= 0xFFFF_FFFF,
            0 <= target <= 0xFFFF_FFFF,
    ;
    assert(2 * length * target == 2 * (length * target)) by (nonlinear_arith);
    let product: u128 = length as u128 * target as u128;
    let rounded: u128 = (2 * product + source as u128) / (2 * source as u128);
    if rounded <= u32::MAX as u128 {
        Some(rounded as u32)
    } else {
        None
    }
}

} // verus!
