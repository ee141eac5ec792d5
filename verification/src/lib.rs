//! A terminal ray-marching renderer over exact fixed-point arithmetic.
//!
//! The crate has two layers. [`linalg`] holds the 3D vector and 4x4
//! homogeneous matrix primitives; [`engine`] marches a ray per character
//! cell through a triangle scene and quantizes the surface brightness to a
//! glyph. All arithmetic is fixed-point (see [`fixed`]), so every operation
//! has an exact contract.

pub mod engine;
pub mod fixed;
pub mod linalg;
