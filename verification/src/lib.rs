//! Escape-time evaluation for the Mandelbrot recurrence.
//!
//! Coordinates in the complex plane are held as fixed-point numbers
//! (`fixed::Fixed`), and the iteration kernel comes in two forms: a scalar
//! evaluator for one point at a time and a lane-parallel batch evaluator
//! that uses an active-lane mask to reproduce the scalar early-return
//! behaviour across independently escaping lanes (`escape`). A small helper
//! maps iteration counts to grayscale intensities (`color`).

pub mod color;
pub mod escape;
pub mod fixed;
