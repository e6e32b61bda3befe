//! Procedural icon engine: composites randomly parameterized geometric
//! shapes onto a fixed-size RGB canvas.
//!
//! The geometry is exact integer arithmetic throughout: rotations are
//! carried as fixed-point cosine/sine pairs, disk membership is a squared
//! distance test, polygons are filled by a scan-line algorithm with a
//! half-open edge rule, and outlines use Bresenham's line algorithm.

pub mod canvas;
pub mod color;
pub mod compose;
pub mod disk;
pub mod line;
pub mod numeric;
pub mod polyfill;
pub mod random;
pub mod rotation;
pub mod shape;
pub mod vertices;
