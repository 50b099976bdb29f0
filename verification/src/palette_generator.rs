//! Palette generation: an adaptive palette for an image, trained by the
//! NeuQuant network of the `color_quant` crate.

use crate::color::{Palette, Rgb};
use crate::rgb_image::{bytes_of, pixels_of, RgbImage};
use vstd::prelude::*;

verus! {

/// The largest palette the quantizer can be asked for. Its training radius
/// is kept as a 32-bit number scaled by 64, which bounds the network size.
pub const MAX_COLORS: usize = 0x0FFF_FFFF;

/// Whether a palette of `colors` entries can be generated: it has an entry,
/// it is within `MAX_COLORS`, and the network of `colors` neurons, at 32
/// bytes each, can be allocated.
pub open spec fn palette_size_fits(colors: int) -> bool {
    &&& 1 <= colors <= MAX_COLORS
    &&& 32 * colors <= isize::MAX
}

/// The colour map, three bytes per entry, that a NeuQuant network of
/// `colors` neurons holds after training on `pixels` with the given
/// sampling factor. Training is sequential and uses no randomness, so the
/// map depends on these three values alone.
pub uninterp spec fn neuquant_color_map(sample_factor: int, colors: int, pixels: Seq<u8>) -> Seq<u8>;

/// Calls `color_quant::NeuQuant::new` and reads the trained network out
/// with `NeuQuant::color_map_rgb`.
///
/// Not proved: that the bytes returned are the network's colour map for
/// these arguments, and that the map has three bytes for each of the
/// `colors` neurons. The preconditions keep out the arguments on which
/// training divides by zero, indexes an empty network, overflows its
/// radius or asks for a network beyond what a vector can hold.
#[verifier::external_body]
fn neuquant_rgb(sample_factor: i32, colors: usize, pixels: &Vec<u8>) -> (map: Vec<u8>)
    requires
        sample_factor >= 1,
        palette_size_fits(colors as int),
    ensures
        map@ == neuquant_color_map(sample_factor as int, colors as int, pixels@),
        map@.len() == 3 * colors,
{
    color_quant::NeuQuant::new(sample_factor, colors, pixels).color_map_rgb()
}

/// The palette generated for `pixels`: the quantizer's colour map, trained
/// on the pixels' channel bytes, read as colours in the order of that map.
pub open spec fn generated_palette(pixels: Seq<Rgb>, sample_factor: int, colors: int) -> Seq<Rgb> {
    pixels_of(neuquant_color_map(sample_factor, colors, bytes_of(pixels)))
}

/// Decides `palette_size_fits` for the given size.
pub fn can_generate(colors: usize) -> (fits: bool)
    ensures
        fits == palette_size_fits(colors as int),
{
    colors >= 1 && colors <= MAX_COLORS && 32 * (colors as u128) <= isize::MAX as u128
}

/// Reads a palette from channel bytes, three to a colour. Bytes left over
/// after the last whole colour are ignored.
pub fn palette_from_bytes(bytes: &Vec<u8>) -> (palette: Palette)
    ensures
        palette@ == pixels_of(bytes@),
{
    let n: usize = bytes.len() / 3;
    let mut palette: Palette = Vec::new();
    let mut i: usize = 0;
    while i < n
        invariant
            i <= n,
            n == bytes@.len() / 3,
            bytes@.len() <= usize::MAX,
            palette@ == pixels_of(bytes@).take(i as int),
        decreases n - i,
    {
        palette.push(Rgb { r: bytes[3 * i], g: bytes[3 * i + 1], b: bytes[3 * i + 2] });
        i += 1;
        assert(palette@ =~= pixels_of(bytes@).take(i as int));
    }
    assert(pixels_of(bytes@).take(n as int) =~= pixels_of(bytes@));
    palette
}

/// Derives a palette of `number_of_colors` colours adapted to `data`.
///
/// The image's channel bytes go to the quantizer as they stand, and it
/// takes one training sample from every four of them. `sample_factor` is
/// the training stride: 1 trains on every sample, larger values on fewer.
/// The result is a function of the image and the two numbers alone. Where
/// the image has fewer samples than colours are asked for, entries of the
/// untrained network remain in the palette.
pub fn generate_image_palette(data: &RgbImage, sample_factor: i32, number_of_colors: usize) -> (palette:
    Palette)
    requires
        sample_factor >= 1,
        palette_size_fits(number_of_colors as int),
    ensures
        palette@ == generated_palette(
            data@.pixels,
            sample_factor as int,
            number_of_colors as int,
        ),
        palette@.len() == number_of_colors,
{
    let color_map = neuquant_rgb(sample_factor, number_of_colors, data.as_raw());
    palette_from_bytes(&color_map)
}

/// Generation is repeatable: images with the same pixels get the same
/// palette for the same sampling factor and size.
pub proof fn lemma_generation_repeatable(
    first: Seq<Rgb>,
    second: Seq<Rgb>,
    sample_factor: int,
    colors: int,
)
    requires
        first == second,
    ensures
        generated_palette(first, sample_factor, colors) == generated_palette(
            second,
            sample_factor,
            colors,
        ),
{
}

} // verus!
