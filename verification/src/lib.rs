//! A software rasterizer in fixed-point arithmetic.
//!
//! Meshes of triangles are carried through a vertex stage, clipped against
//! the near plane, and filled into a colour buffer and a depth buffer, with
//! interpolation that is correct across perspective, a depth test, and
//! textures with mipmaps.  Every scalar is a fixed-point number, so every
//! result is an exact function of the input.
pub mod attributes;
pub mod clip;
pub mod colour;
pub mod fixed;
pub mod fragment;
pub mod image;
pub mod lines;
pub mod logarithm;
pub mod math;
pub mod mesh;
pub mod mipmap;
pub mod natural;
pub mod raster;
pub mod rendering;
pub mod shading;
pub mod structs;
pub mod texture;
