//! Escape-time rendering of the Mandelbrot set in fixed-point arithmetic:
//! viewport navigation, pixel-to-plane mapping, the escape-time kernel,
//! palette interpolation and the per-frame rasterizer.
pub mod escape;
pub mod fixed;
pub mod palette;
pub mod raster;
pub mod viewport;
