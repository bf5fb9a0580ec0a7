//! Land-cover raster tiling.
//!
//! Converts a global land-cover classification raster (CCI class codes) into
//! USGS land-use codes, splits rows into west/east hemisphere halves, and
//! partitions a raster into an n-by-n grid of equally sized tiles named by
//! their pixel-coordinate ranges.

use vstd::prelude::*;

pub mod fname;
pub mod laws;
pub mod raster;
pub mod remap;
pub mod split;

verus! {

/// The closed set of error conditions the library reports. Every failure is
/// fatal for the run; callers are expected to abort on the first error.
#[derive(Clone, Copy, Debug, PartialEq, Eq, Structural)]
pub enum Error {
    /// Fewer bytes were available than the declared raster dimensions require.
    TruncatedInput,
    /// A dimension is not divisible by the requested grid size.
    NonDivisibleDimensions,
    /// A class code outside the fixed remap table was found in the data.
    UnknownClassCode(u8),
}

} // verus!
