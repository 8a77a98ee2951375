//! Pixel-processing core for procedural gradient images: the index logic of
//! a separable box blur, a walk along 2D and 3D Hilbert curves, and a
//! row-major renderer that fills an image from a per-pixel function.
pub mod blur;
pub mod curve;
pub mod render;
