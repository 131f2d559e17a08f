//! Dives into fractals: the integer core of a generator that zooms a camera
//! into the Mandelbrot set or a Julia set, step by step, towards contours
//! that it finds in low-resolution previews, and then takes one large
//! antialiased shot.
//!
//! The crate holds the settings and their textual forms, the picture buffer,
//! the renderer, the edge detector, the point finder and the controller that
//! sequences a dive. Sampling a fractal at a position is the caller's part:
//! the renderer takes it as a function from pixel positions to iteration
//! counts.

pub mod antialiazing;
pub mod bitmap;
pub mod dive;
pub mod edges;
pub mod finder;
pub mod fractal;
pub mod generator;
pub mod random;
pub mod render;
pub mod screen_dimensions;
pub mod target;
pub mod text;

pub use crate::antialiazing::{is_power_of_four, Antialiazing, AntialiazingError};
pub use crate::bitmap::{Bitmap, Rgb};
pub use crate::dive::{carry_out, Action, Dive, Event, Phase};
pub use crate::edges::edges;
pub use crate::finder::find_point;
pub use crate::fractal::{FractalType, Mandelbrot};
pub use crate::generator::Generator;
pub use crate::render::produce_image;
pub use crate::screen_dimensions::{DimensionsError, ScreenDimensions};
