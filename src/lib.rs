//! Escape-time rendering of the Mandelbrot set onto an RGB pixel grid.
//!
//! The iteration counts come from an evaluator supplied by the caller; this
//! crate owns the colour mapping and the placement of every pixel.
pub mod canvas;
pub mod palette;
pub mod render;

pub use canvas::sample_index;
pub use palette::{colour_of, get_colour, shade_of, MAX_ITERATIONS};
pub use render::{create_mandelbrot, depicts, depicts_row, render_row, row_of, shows_at};
