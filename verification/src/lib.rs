//! A ray-tracing core over fixed-point numbers.
//!
//! Every quantity that the tracer computes with (coordinates, distances,
//! colour channels) is a [`fixed::Fixed`]: a signed 64-bit integer read as a
//! multiple of 2^-32. Its arithmetic saturates and rounds toward zero, so every
//! operation is total and has an exact statement over the integers.
//!
//! A scene is rendered in one of two ways. [`rendering`] follows paths that
//! scatter at random off the surfaces, lit by the items that give off light.
//! [`direct`] lights the surfaces by the lights of the scene, with mirrors and
//! glass, and leaves nothing to chance. [`worked`] follows one small picture
//! through the second way, number by number.
pub mod angle;
pub mod color;
pub mod direct;
pub mod fixed;
pub mod gamma;
pub mod math;
pub mod rendering;
pub mod scene;
pub mod texels;
pub mod worked;
