//! Planning and bookkeeping core of a per-cell raster similarity engine.
//!
//! The engine aggregates, for every cell of a multi-band raster, a distance
//! between that cell's band vector and the band vectors of a reference set
//! of cells. This crate holds what such a run decides: which cells are
//! valid, which reference cells a seed draws, which of them a cell is
//! compared with, which recovered position belongs to which cell, and where
//! each aggregate lands in the output. It works on integers and on the bit
//! patterns of IEEE 754 values throughout; the arithmetic on the values
//! themselves is the caller's.
//!
//! - [`ieee`]: finiteness, order and floor of binary32 and binary64 patterns
//! - [`raster`]: the raster view and its validity mask
//! - [`sampler`]: the seeded draw of reference cells
//! - [`sort`]: ascending order of cell indices
//! - [`georef`]: singular transforms, cell of a position, flat indices
//! - [`kernel`]: plans of the three kernels, partners, nearest, scatter
//! - [`error`]: the refusals

pub mod error;
pub mod georef;
pub mod ieee;
pub mod kernel;
pub mod raster;
pub mod sampler;
pub mod sort;
