//! Annotation-to-PDF compositor.
//!
//! The library takes per-page freehand ink strokes (vector paths captured in
//! canvas pixel space) plus optional per-page raster background images, and
//! composes a multi-page document description whose page geometry, image
//! placement and stroke geometry are in exact physical correspondence with
//! the original on-screen pixel coordinates.  Coordinates are kept as exact
//! rational numbers (integer numerator and denominator) so that the geometry
//! can be verified; a thin unverified layer turns the composed description
//! into PDF bytes.

pub mod bytes;
pub mod color;
pub mod compose;
pub mod dataurl;
pub mod geometry;
pub mod loader;
pub mod model;
pub mod preview;
pub mod proofread;
pub mod viewer;

pub use color::parse_color;
