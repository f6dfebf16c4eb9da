//! Grayscale raster of the Mandelbrot set: the count of the escape-time
//! test, the rasterizer that turns escape counts into gray levels, and the
//! pixel buffer that it fills.

pub mod escape;
pub mod raster;
pub mod screen;
