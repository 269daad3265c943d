//! A small offline wireframe rendering core: an edge list of 3-D line
//! segments in homogeneous coordinates, affine transform matrices that
//! compose by pre-multiplication, parametric edge generators, an
//! octant-classified incremental rasterizer, and a plain pixel-triple
//! serializer.

pub mod color;
pub mod image;
pub mod math;
pub mod matrix;
pub mod ppm;

pub use color::Color;
pub use image::Image;
