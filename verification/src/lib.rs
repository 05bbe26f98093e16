//! Escape-time sampling of the Mandelbrot set on a fixed-point grid.
//!
//! A view of the complex plane is cut into vertical strips, every strip is
//! sampled on a regular grid, and the samples whose orbit stays bounded for a
//! given number of iterations are gathered, strip after strip, into one list.
//! All coordinates are signed fixed-point numbers with 32 fractional bits, so
//! every result is an exact function of the inputs.

pub mod fixed;

pub mod kernel;
pub mod view;
pub mod strip;
pub mod partition;
pub mod error;
pub mod aggregate;
pub mod generate;
pub mod lattice;
pub mod invariance;
pub mod budget;
