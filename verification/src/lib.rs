//! Wave propagation on a hexagonal lattice.
//!
//! A closed outline is rasterised onto an offset hexagonal lattice, every cell
//! is tagged as outside, interior or boundary, and a leap-frog stepper moves a
//! wave over the interior cells. Frames are turned into RGB bytes through a
//! colour table of 256 entries.
//!
//! The library never computes with real numbers itself. Positions are whole
//! numbers of half cell spacings, and amplitudes are of any copyable type whose
//! arithmetic the caller supplies.
pub mod colour;
pub mod field;
pub mod lattice;
pub mod raster;
pub mod table;
pub mod wave;
