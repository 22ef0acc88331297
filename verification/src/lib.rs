//! Escape-time fractal rendering: the pixel grid, the iteration that decides
//! when a point escapes, and the mapping from that outcome to a colour.
//!
//! The library does no arithmetic on the complex plane itself. The points of
//! the plane are values of a type parameter, and the caller supplies the
//! operations on them; everything around those operations is verified for
//! every such type and every such operation.

pub mod escape;
pub mod image;
pub mod mandelbrot;
pub mod palette;
