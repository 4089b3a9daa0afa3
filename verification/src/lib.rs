//! Escape-time rendering of the Mandelbrot set over a fixed-point model of
//! the complex plane: a viewport is mapped onto a pixel raster, each sample
//! is iterated under `z * z + c`, and the escape outcome is turned into an
//! RGB color. A sequential renderer and a parallel renderer produce the
//! same image, pixel for pixel.

pub mod fixed;
pub mod plane;
pub mod escape;
pub mod color;
pub mod render;
