//! A sparse 2D scalar field contoured into a triangle mesh by marching squares.
//!
//! The field maps signed integer lattice coordinates to scalar samples and
//! tracks the bounding box of every coordinate ever written.  Marching over
//! the box (plus a one-cell margin) classifies each 2x2 window of samples
//! against a threshold into one of sixteen configurations and emits a fixed
//! triangle list per configuration.
//!
//! All geometry is carried in half-unit integer coordinates: a cell anchored
//! at `(x, y)` spans `[2x - 1, 2x + 1] x [2y - 1, 2y + 1]`, so the corner and
//! edge-midpoint offsets of a unit cell are exact integers.  A renderer that
//! wants unit cells divides each coordinate by two.

pub mod field;
pub mod mesher;
pub mod pattern;
