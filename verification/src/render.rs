pub mod camera;
pub mod heatmap;
pub mod ppm;
pub mod samplers;
pub mod sampling;

pub use camera::Resolution;
pub use heatmap::{get_heatmap_color, heat_level, most_samples, HeatColor, HeatLevel};
pub use ppm::Rgb;
pub use samplers::{radical_digits, Custom, Logistic, Randomizer, Uniform};
pub use sampling::{PixelSampler, SampleRange};
