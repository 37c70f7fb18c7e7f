//! 2D gradient-noise fields rendered to grayscale rasters, in fixed-point
//! arithmetic at scale `math::SCALE` (one unit is 1000): a lattice of unit
//! gradient vectors from a fixed 24-direction palette, a four-corner
//! smoothstep sampling kernel that tiles at the lattice boundary, a
//! multi-octave fractal sum normalized by its weights, and an exactly
//! partitioned chunked raster fill whose bytes equal the single-threaded
//! reference fill.

pub mod field;
pub mod math;
pub mod palette;
pub mod raster;
pub mod vector;
