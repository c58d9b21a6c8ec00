//! Adaptive box-subdivision sampling for escape-time fractal images.
//!
//! A render pass owns a [`canvas::Canvas`] and walks it in square boxes. Only
//! the border of a box is sampled at first; a box whose whole border reaches
//! the iteration cap is flooded with the capped colour, any other box is
//! refined with the next smaller box size, and a box of the smallest size is
//! evaluated pixel by pixel. The escape-time kernel and the colour mapper are
//! supplied by the caller as pure functions of a pixel and of a count.

pub mod canvas;
pub mod color;
pub mod geometry;
pub mod scene;
pub mod sampler;
pub mod fill;
pub mod subdivision;
pub mod subdivider;
pub mod extent;
pub mod invariants;
pub mod laws;
pub mod uniform;
pub mod determinism;
