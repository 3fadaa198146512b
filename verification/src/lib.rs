//! Builds a multi-resolution tile pyramid from one raster image.
//!
//! The library plans the pyramid (how many resolution levels a given image
//! and tile size produce), partitions each level into a grid of clamped
//! tiles, names every tile deterministically, and drives the per-level
//! resampling and cropping through the `image` crate. Reading the source
//! file and writing the tile files to disk are left to the binary around
//! the library.

use vstd::prelude::*;

pub mod naming;
pub mod partition;
pub mod planning;
pub mod raster;
pub mod tiler;

verus! {

/// A terminal failure of a tiling run.
#[derive(Debug, Clone, PartialEq, Eq)]
pub enum TilingError {
    /// The source image cannot be used: it failed to decode, or the
    /// square-pyramid variant was given a non-square image.
    UnsupportedSourceImage(String),
    /// A decode, resample, crop or encode operation failed.
    ImageProcessingError(String),
    /// A filesystem operation failed.
    IOError(String),
    /// The base size and tile size combination yields no usable level count.
    PlanningError(String),
}

} // verus!
