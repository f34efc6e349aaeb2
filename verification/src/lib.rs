//! Escape-time rendering of the Mandelbrot set.
//!
//! The iteration kernels, the painting of the pixel buffer and the color
//! mapping are generic in what is computed in floating point: the arithmetic
//! on an orbit's values and the color wave are functions of the caller. The
//! contracts say what is returned for whatever those functions compute.
//!
//! - [`arithmetic`] names what such functions compute, and defines the
//!   escape time of an orbit.
//! - [`kernel`] is the scalar kernel, with its membership tests and cycle
//!   detection, and the proof that cycle detection leaves the result as it
//!   is.
//! - [`lanes`] is the vector kernel, which iterates a group of points in
//!   lock-step.
//! - [`field`] paints a region of the pixel buffer from the vector kernel and
//!   a palette.
//! - [`color`] maps iteration counts to packed colors and builds the palette.

pub mod arithmetic;
pub mod color;
pub mod field;
pub mod kernel;
pub mod lanes;
