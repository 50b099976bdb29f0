//! Reduced-palette ("pixel-art") conversion of 24-bit RGB images: colour
//! histograms, palette generation, nearest-colour remapping and resampling,
//! each with a machine-checked contract.

pub mod color;
pub mod config;
pub mod histogram;
pub mod image_processing;
pub mod palette_generator;
pub mod pipeline;
pub mod processed_image;
pub mod resample;
pub mod rgb_image;
pub mod spatial_index;

pub use color::{Palette, Rgb};
pub use config::Config;
pub use histogram::RgbHistogram;
pub use processed_image::ProcessedImage;
pub use rgb_image::RgbImage;
