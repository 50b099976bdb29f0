//! The processing stages: histogram, palette generation, remapping to a
//! palette, resampling, and the palette strip.

pub use crate::histogram::get_color_histogram;
pub use crate::palette_generator::generate_image_palette;
pub use crate::resample::scale;

use crate::color::{Palette, Rgb};
use crate::rgb_image::{pixels_of, RgbImage};
use crate::spatial_index::{lemma_nearest_index_is_first_nearest, lemma_nearest_of_member, nearest_index, SpatialIndex};
use vstd::prelude::*;

verus! {

/// `pixels` with each pixel replaced by the palette colour nearest to it.
pub open spec fn remapped(pixels: Seq<Rgb>, palette: Seq<Rgb>) -> Seq<Rgb> {
    Seq::new(pixels.len(), |i: int| palette[nearest_index(palette, pixels[i])])
}

/// Every remapped pixel is a colour of the palette.
pub proof fn lemma_remapped_in_palette(pixels: Seq<Rgb>, palette: Seq<Rgb>)
    requires
        palette.len() > 0,
    ensures
        forall|i: int|
            0 <= i < pixels.len() ==> palette.contains(#[trigger] remapped(pixels, palette)[i]),
{
    assert forall|i: int| 0 <= i < pixels.len() implies palette.contains(
        #[trigger] remapped(pixels, palette)[i],
    ) by {
        lemma_nearest_index_is_first_nearest(palette, pixels[i]);
    }
}

/// Remapping leaves an image alone whose pixels are all colours of the
/// palette.
pub proof fn lemma_remap_keeps_quantized(pixels: Seq<Rgb>, palette: Seq<Rgb>)
    requires
        forall|i: int| 0 <= i < pixels.len() ==> palette.contains(#[trigger] pixels[i]),
    ensures
        remapped(pixels, palette) == pixels,
{
    assert forall|i: int| 0 <= i < pixels.len() implies remapped(pixels, palette)[i]
        == pixels[i] by {
        lemma_nearest_of_member(palette, pixels[i]);
    }
    assert(remapped(pixels, palette) =~= pixels);
}

/// Remapping twice to the same palette is remapping once.
pub proof fn lemma_remap_idempotent(pixels: Seq<Rgb>, palette: Seq<Rgb>)
    requires
        palette.len() > 0,
    ensures
        remapped(remapped(pixels, palette), palette) == remapped(pixels, palette),
{
    lemma_remapped_in_palette(pixels, palette);
    lemma_remap_keeps_quantized(remapped(pixels, palette), palette);
}

/// Replaces every pixel of `img` by the colour of `palette` nearest to it
/// under squared Euclidean distance in RGB space. Of equally near palette
/// entries the one with the lowest index is taken.
///
/// An image with pixels needs a palette with at least one colour.
pub fn apply_palette(img: &RgbImage, palette: &Palette) -> (out: RgbImage)
    requires
        img@.pixels.len() > 0 ==> palette@.len() > 0,
    ensures
        out.well_formed(),
        out@.width == img@.width,
        out@.height == img@.height,
        out@.pixels == remapped(img@.pixels, palette@),
        forall|i: int| 0 <= i < out@.pixels.len() ==> palette@.contains(#[trigger] out@.pixels[i]),
{
    let index = SpatialIndex::build(palette);
    let bytes = img.as_raw();
    let ghost pixels = img@.pixels;
    let ghost target = remapped(pixels, palette@);
    proof {
        img.lemma_well_formed();
    }
    let n: usize = bytes.len() / 3;
    let mut data: Vec<u8> = Vec::new();
    let mut i: usize = 0;
    while i < n
        invariant
            i <= n,
            n == pixels.len(),
            bytes@.len() == 3 * n,
            3 * n <= usize::MAX,
            pixels == pixels_of(bytes@),
            index@ == palette@,
            n > 0 ==> palette@.len() > 0,
            target == remapped(pixels, palette@),
            data@.len() == 3 * i,
            forall|k: int|
                0 <= k < i ==> data@[3 * k] == (#[trigger] target[k]).r && data@[3 * k + 1]
                    == target[k].g && data@[3 * k + 2] == target[k].b,
        decreases n - i,
    {
        let pixel = Rgb { r: bytes[3 * i], g: bytes[3 * i + 1], b: bytes[3 * i + 2] };
        let nearest = index.nearest_color(pixel);
        assert(pixels[i as int] == pixel);
        assert(target[i as int] == nearest);
        data.push(nearest.r);
        data.push(nearest.g);
        data.push(nearest.b);
        i += 1;
    }
    proof {
        assert(3 * img@.width * img@.height == 3 * (img@.width * img@.height))
            by (nonlinear_arith);
        assert(pixels_of(data@) =~= target);
        if n > 0 {
            lemma_remapped_in_palette(pixels, palette@);
        }
    }
    RgbImage::from_raw(img.width(), img.height(), data).unwrap()
}

/// The palette given as `(r, g, b)` triples, as colours in the same order.
pub fn palette_from_tuples(tuples: &[(u8, u8, u8)]) -> (palette: Palette)
    ensures
        palette@.len() == tuples@.len(),
        forall|i: int|
            0 <= i < tuples@.len() ==> #[trigger] palette@[i] == (Rgb {
                r: tuples@[i].0,
                g: tuples@[i].1,
                b: tuples@[i].2,
            }),
{
    let n: usize = tuples.len();
    let mut palette: Palette = Vec::new();
    let mut i: usize = 0;
    while i < n
        invariant
            i <= n,
            n == tuples@.len(),
            palette@.len() == i,
            forall|k: int|
                0 <= k < i ==> #[trigger] palette@[k] == (Rgb {
                    r: tuples@[k].0,
                    g: tuples@[k].1,
                    b: tuples@[k].2,
                }),
        decreases n - i,
    {
        let t = tuples[i];
        palette.push(Rgb { r: t.0, g: t.1, b: t.2 });
        i += 1;
    }
    palette
}

/// The palette as an image one pixel high: the pixel in column `i` is
/// palette entry `i`. An empty palette gives an image without pixels.
pub fn palette_image(palette: &Palette) -> (strip: RgbImage)
    requires
        palette@.len() <= u32::MAX,
    ensures
        strip.well_formed(),
        strip@.width == palette@.len(),
        strip@.height == 1,
        strip@.pixels == palette@,
{
    let n: usize = palette.len();
    let mut data: Vec<u8> = Vec::new();
    let mut i: usize = 0;
    while i < n
        invariant
            i <= n,
            n == palette@.len(),
            data@.len() == 3 * i,
            forall|k: int|
                0 <= k < i ==> data@[3 * k] == (#[trigger] palette@[k]).r && data@[3 * k + 1]
                    == palette@[k].g && data@[3 * k + 2] == palette@[k].b,
        decreases n - i,
    {
        let color = palette[i];
        data.push(color.r);
        data.push(color.g);
        data.push(color.b);
        i += 1;
    }
    assert(pixels_of(data@) =~= palette@);
    RgbImage::from_raw(n as u32, 1, data).unwrap()
}

} // verus!
