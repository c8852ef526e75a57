//! Escape-time rendering of the quaternion Mandelbrot set into character
//! grids: exact fixed-point quaternion algebra, a bounded escape-time
//! evaluator, a memoizing evaluation cache, restartable coordinate ranges,
//! and an index-preserving rasterizer.

pub mod cache;
pub mod evaluator;
pub mod quaternion;
pub mod renderer;
pub mod sampler;
