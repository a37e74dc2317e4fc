//! A minimal ray-casting renderer over exact integer arithmetic.
//!
//! The library provides three-component vector algebra (`vectors`), rays
//! (`ray`), color channel computation and plain-text image encoding (`color`),
//! and a camera that maps pixel indices to rays and renders a vertical
//! gradient image (`camera`).

pub mod camera;
pub mod color;
pub mod ray;
pub mod vectors;
