//! Pixel synthesis: images made from parameters alone.
//!
//! * [`stripes`] paints bands of solid color, side by side or one above the
//!   other.
//! * [`fractal`] assembles an escape-time fractal: a gradient in red and
//!   blue, the escape count of each pixel in green.
//! * [`color`] reads colors from their text `R:G:B`.
//! * [`buffer`] is the pixel buffer that both painters fill, an image of the
//!   `image` crate.
//! * [`rotation`] names the quarter turns by which an image can be rotated.
//! * [`error`] lists the reasons for which a request is rejected.

pub mod buffer;
pub mod color;
pub mod error;
pub mod fractal;
pub mod rotation;
pub mod stripes;

pub use buffer::PixelBuffer;
pub use color::{parse_colors, Color};
pub use error::ConfigError;
pub use fractal::{
    cell_index, escape_step, fractal, fractal_rejection, gradient_at, DEFAULT_SIZE, MAX_ITERATIONS,
};
pub use rotation::Rotation;
pub use stripes::{generate, locate_band, stripe_rejection, StripeOrientation};
