//! The integer core of a software renderer: colours, primitive assembly,
//! rasterisation of lines and triangles, fragment shaders, a depth-tested
//! framebuffer and its export as a bitmap file, each with a proved contract.
//!
//! Coordinates, depths and light are integers or fixed-point numbers. What a
//! scene needs in floating point (matrices, trigonometry, noise) is the
//! caller's part: it hands in transformed vertices and noise samples.

pub mod assembly;
pub mod bitmap;
pub mod camera;
pub mod color;
pub mod fill;
pub mod fixed;
pub mod fragment;
pub mod framebuffer;
pub mod line;
pub mod planet;
pub mod render;
pub mod shader;
pub mod skybox;
pub mod vertex;
