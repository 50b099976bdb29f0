//! The conversion between decoding and encoding: resize as the settings
//! say, then reduce the image to a palette.

use crate::color::{Palette, Rgb};
use crate::config::Config;
use crate::image_processing::{palette_from_tuples, remapped};
use crate::processed_image::ProcessedImage;
use crate::palette_generator::{can_generate, generated_palette, palette_size_fits};
use crate::resample::{can_scale, rounded_ratio, scale_fits, scaled_dimension};
use vstd::prelude::*;

verus! {

/// Why a stage of the conversion did not run.
#[derive(Clone, Copy, Debug, PartialEq, Eq, Structural)]
pub enum PipelineError {
    /// The configuration breaks a rule, or a setting that the stage uses is
    /// out of range.
    InvalidConfig,
    /// The image cannot be brought to the target dimensions: it has no
    /// pixels to keep a ratio to, or the target is beyond what can be
    /// allocated.
    Unscalable,
}

/// The settings that the resize stage uses are present and at least 1.
pub open spec fn resize_settings_ok(config: Config) -> bool {
    &&& config.valid()
    &&& if config.uniform_scale_by_width {
        config.desired_width->Some_0 >= 1
    } else if config.uniform_scale_by_height {
        config.desired_height->Some_0 >= 1
    } else {
        config.desired_width->Some_0 >= 1 && config.desired_height->Some_0 >= 1
    }
}

/// The dimensions that the settings ask for, for an image that is
/// `width` x `height` now. Scaling by width has precedence over scaling by
/// height.
pub open spec fn target_dimensions(config: Config, width: int, height: int) -> (int, int) {
    if config.uniform_scale_by_width {
        let w = config.desired_width->Some_0 as int;
        (w, rounded_ratio(height, w, width))
    } else if config.uniform_scale_by_height {
        let h = config.desired_height->Some_0 as int;
        (rounded_ratio(width, h, height), h)
    } else {
        (config.desired_width->Some_0 as int, config.desired_height->Some_0 as int)
    }
}

/// A `width` x `height` image can be brought to the target dimensions.
pub open spec fn scalable(config: Config, width: int, height: int) -> bool {
    let target = target_dimensions(config, width, height);
    &&& config.uniform_scale_by_width ==> width > 0
    &&& !config.uniform_scale_by_width && config.uniform_scale_by_height ==> height > 0
    &&& target.0 <= u32::MAX
    &&& target.1 <= u32::MAX
    &&& scale_fits(width, height, target.0, target.1)
}

/// Resizes `image` as `config` says, with the smooth filter: to the
/// desired width or height at the same aspect ratio in the uniform modes,
/// else to the desired width and height. On an error the image is left as
/// it was.
pub fn resize(config: &Config, image: &mut ProcessedImage) -> (result: Result<(), PipelineError>)
    ensures
        match result {
            Ok(_) => {
                &&& resize_settings_ok(*config)
                &&& scalable(*config, old(image).data@.width as int, old(image).data@.height as int)
                &&& final(image).data@.width == target_dimensions(
                    *config,
                    old(image).data@.width as int,
                    old(image).data@.height as int,
                ).0
                &&& final(image).data@.height == target_dimensions(
                    *config,
                    old(image).data@.width as int,
                    old(image).data@.height as int,
                ).1
                &&& (final(image).data@.width == old(image).data@.width && final(image).data@.height
                    == old(image).data@.height) ==> final(image).data@ == old(image).data@
            },
            Err(PipelineError::InvalidConfig) => {
                &&& !resize_settings_ok(*config)
                &&& final(image).data@ == old(image).data@
            },
            Err(PipelineError::Unscalable) => {
                &&& resize_settings_ok(*config)
                &&& !scalable(*config, old(image).data@.width as int, old(image).data@.height as int)
                &&& final(image).data@ == old(image).data@
            },
        },
{
    if !config.is_valid() {
        return Err(PipelineError::InvalidConfig);
    }
    let (width, height) = image.data.dimensions();
    let target: Option<(u32, u32)> = if config.uniform_scale_by_width {
        let w = config.desired_width.unwrap();
        if w == 0 {
            return Err(PipelineError::InvalidConfig);
        }
        match scaled_dimension(height, w, width) {
            Some(h) => Some((w, h)),
            None => None,
        }
    } else if config.uniform_scale_by_height {
        let h = config.desired_height.unwrap();
        if h == 0 {
            return Err(PipelineError::InvalidConfig);
        }
        match scaled_dimension(width, h, height) {
            Some(w) => Some((w, h)),
            None => None,
        }
    } else {
        let w = config.desired_width.unwrap();
        let h = config.desired_height.unwrap();
        if w == 0 || h == 0 {
            return Err(PipelineError::InvalidConfig);
        }
        Some((w, h))
    };
    match target {
        Some((w, h)) => {
            if can_scale(width, height, w, h) {
                image.scale(w, h, true);
                Ok(())
            } else {
                Err(PipelineError::Unscalable)
            }
        },
        None => Err(PipelineError::Unscalable),
    }
}

/// The settings that the palette stage uses are present and in range.
pub open spec fn palette_settings_ok(config: Config) -> bool {
    &&& config.valid()
    &&& !config.use_custom_palette ==> {
        &&& palette_size_fits(config.number_of_colors->Some_0 as int)
        &&& config.sample_factor->Some_0 >= 1
    }
}

/// The colours that a list of `(r, g, b)` triples names.
pub open spec fn colors_of_tuples(tuples: Seq<(u8, u8, u8)>) -> Seq<Rgb> {
    Seq::new(tuples.len(), |i: int| Rgb { r: tuples[i].0, g: tuples[i].1, b: tuples[i].2 })
}

/// The palette that the settings choose for an image with these pixels:
/// the custom palette as it stands, or a generated one.
pub open spec fn chosen_palette(config: Config, pixels: Seq<Rgb>) -> Seq<Rgb> {
    if config.use_custom_palette {
        colors_of_tuples(config.custom_palette@)
    } else {
        generated_palette(
            pixels,
            config.sample_factor->Some_0 as int,
            config.number_of_colors->Some_0 as int,
        )
    }
}

/// Reduces `image` to the palette that `config` chooses and returns that
/// palette. On an error the image is left as it was.
pub fn quantize(config: &Config, image: &mut ProcessedImage) -> (result: Result<
    Palette,
    PipelineError,
>)
    ensures
        match result {
            Ok(palette) => {
                &&& palette_settings_ok(*config)
                &&& palette@ == chosen_palette(*config, old(image).data@.pixels)
                &&& palette@.len() > 0
                &&& final(image).data@.width == old(image).data@.width
                &&& final(image).data@.height == old(image).data@.height
                &&& final(image).data@.pixels == remapped(old(image).data@.pixels, palette@)
            },
            Err(e) => {
                &&& e == PipelineError::InvalidConfig
                &&& !palette_settings_ok(*config)
                &&& final(image).data@ == old(image).data@
            },
        },
{
    if !config.is_valid() {
        return Err(PipelineError::InvalidConfig);
    }
    let palette = if config.use_custom_palette {
        let palette = palette_from_tuples(config.custom_palette.as_slice());
        assert(palette@ =~= colors_of_tuples(config.custom_palette@));
        palette
    } else {
        let colors = config.number_of_colors.unwrap();
        let sample_factor = config.sample_factor.unwrap();
        if !can_generate(colors) || sample_factor < 1 {
            return Err(PipelineError::InvalidConfig);
        }
        image.generate_image_palette(sample_factor, colors)
    };
    image.apply_palette(&palette);
    Ok(palette)
}

} // verus!
