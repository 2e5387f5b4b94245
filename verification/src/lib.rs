//! Exact scan conversion of screen-space triangles.
//!
//! A triangle is given by three vertices whose screen positions are held in
//! fixed point. The library finds the pixels that the triangle covers, in
//! row-major order, and gives each the depth interpolated from the three
//! vertices as an exact fraction.

pub mod color;
pub mod fragment;
pub mod pixel_box;
pub mod triangle;
pub mod vertex;
