//! The settings of a conversion and the rules that make them usable.

use vstd::prelude::*;

verus! {

/// Settings of one conversion run. A setting that a mode does not use may
/// be absent.
#[derive(Clone, Debug)]
pub struct Config {
    /// Size of the generated palette.
    pub number_of_colors: Option<usize>,
    /// Training stride of the palette generation; 1 trains on everything.
    pub sample_factor: Option<i32>,
    /// Target width in pixels.
    pub desired_width: Option<u32>,
    /// Target height in pixels.
    pub desired_height: Option<u32>,
    /// Scale to `desired_width` and keep the aspect ratio.
    pub uniform_scale_by_width: bool,
    /// Scale to `desired_height` and keep the aspect ratio.
    pub uniform_scale_by_height: bool,
    /// Use `custom_palette` in place of a generated palette.
    pub use_custom_palette: bool,
    /// The palette to use in custom mode, as `(r, g, b)` triples.
    pub custom_palette: Vec<(u8, u8, u8)>,
}

pub const MSG_GENERATION: &'static str =
    "Warning: invalid configuration: number_of_colors and sample_factor are missing.";

pub const MSG_CUSTOM_PALETTE: &'static str = "Warning: invalid configuration: custom_palette is empty.";

pub const MSG_DIMENSIONS: &'static str =
    "Warning: invalid configuration: desired_width and desired_height are missing.";

pub const MSG_WIDTH: &'static str = "Warning: invalid configuration: desired_width is missing.";

pub const MSG_HEIGHT: &'static str = "Warning: invalid configuration: desired_height is missing.";

/// `messages` with `message` added where `broken` holds.
pub open spec fn with_message(messages: Seq<Seq<char>>, broken: bool, message: Seq<char>) -> Seq<
    Seq<char>,
> {
    if broken {
        messages.push(message)
    } else {
        messages
    }
}

impl Config {
    /// A palette is to be generated, but its size or the sampling factor
    /// is absent.
    pub open spec fn lacks_generation_settings(&self) -> bool {
        !self.use_custom_palette && (self.number_of_colors.is_none()
            || self.sample_factor.is_none())
    }

    /// The custom palette is to be used, but it is empty.
    pub open spec fn lacks_custom_palette(&self) -> bool {
        self.use_custom_palette && self.custom_palette@.len() == 0
    }

    /// Neither uniform mode is chosen, and a target dimension is absent.
    pub open spec fn lacks_dimensions(&self) -> bool {
        !self.uniform_scale_by_width && !self.uniform_scale_by_height && (
        self.desired_width.is_none() || self.desired_height.is_none())
    }

    /// Scaling by width is chosen, but the width is absent.
    pub open spec fn lacks_width(&self) -> bool {
        self.uniform_scale_by_width && self.desired_width.is_none()
    }

    /// Scaling by height is chosen, but the height is absent.
    pub open spec fn lacks_height(&self) -> bool {
        self.uniform_scale_by_height && self.desired_height.is_none()
    }

    /// No rule is broken.
    pub open spec fn valid(&self) -> bool {
        &&& !self.lacks_generation_settings()
        &&& !self.lacks_custom_palette()
        &&& !self.lacks_dimensions()
        &&& !self.lacks_width()
        &&& !self.lacks_height()
    }

    /// The warnings that the configuration earns, one for each broken
    /// rule, in the order of the rules.
    pub open spec fn warnings(&self) -> Seq<Seq<char>> {
        let palette = with_message(
            with_message(Seq::empty(), self.lacks_generation_settings(), MSG_GENERATION@),
            self.lacks_custom_palette(),
            MSG_CUSTOM_PALETTE@,
        );
        let dimensions = with_message(palette, self.lacks_dimensions(), MSG_DIMENSIONS@);
        let width = with_message(dimensions, self.lacks_width(), MSG_WIDTH@);
        with_message(width, self.lacks_height(), MSG_HEIGHT@)
    }

    /// Checks the configuration against the rules and returns a warning
    /// for each rule it breaks; none for a valid one.
    pub fn validate(&self) -> (messages: Vec<String>)
        ensures
            messages@.len() == self.warnings().len(),
            forall|i: int| 0 <= i < messages@.len() ==> (#[trigger] messages@[i])@ == self.warnings()[i],
            messages@.len() == 0 <==> self.valid(),
    {
        let mut messages: Vec<String> = Vec::new();
        if !self.use_custom_palette {
            if self.number_of_colors.is_none() || self.sample_factor.is_none() {
                messages.push(MSG_GENERATION.to_string());
            }
        } else if self.custom_palette.len() == 0 {
            messages.push(MSG_CUSTOM_PALETTE.to_string());
        }
        if !self.uniform_scale_by_width && !self.uniform_scale_by_height && (
        self.desired_width.is_none() || self.desired_height.is_none()) {
            messages.push(MSG_DIMENSIONS.to_string());
        }
        if self.uniform_scale_by_width && self.desired_width.is_none() {
            messages.push(MSG_WIDTH.to_string());
        }
        if self.uniform_scale_by_height && self.desired_height.is_none() {
            messages.push(MSG_HEIGHT.to_string());
        }
        messages
    }

    /// Whether the configuration breaks no rule.
    pub fn is_valid(&self) -> (ok: bool)
        ensures
            ok == self.valid(),
    {
        self.validate().len() == 0
    }
}

impl Default for Config {
    /// Eight colours, sampling factor ten, 32 x 32 pixels, no uniform
    /// scaling, no custom palette.
    fn default() -> (config: Config)
        ensures
            config.number_of_colors == Some(8usize),
            config.sample_factor == Some(10i32),
            config.desired_width == Some(32u32),
            config.desired_height == Some(32u32),
            !config.uniform_scale_by_width,
            !config.uniform_scale_by_height,
            !config.use_custom_palette,
            config.custom_palette@.len() == 0,
            config.valid(),
    {
        Config {
            number_of_colors: Some(8),
            sample_factor: Some(10),
            desired_width: Some(32),
            desired_height: Some(32),
            uniform_scale_by_width: false,
            uniform_scale_by_height: false,
            use_custom_palette: false,
            custom_palette: Vec::new(),
        }
    }
}

} // verus!
