//! The ways a call into the engine can be turned down.

use vstd::prelude::*;

verus! {

/// Why a call was refused. Every refusal is decided before any per-cell
/// work starts, so a refused call leaves no partial output behind.
#[derive(Debug, Clone, Copy, PartialEq, Eq, Structural)]
pub enum EngineError {
    /// Fewer than two bands, or a sequence whose length does not fit the
    /// raster it is meant for.
    Shape,
    /// A bandwidth that is not finite and positive, or a column count of
    /// zero where flat indices have to be decoded.
    NumericParameter,
    /// A buffer that cannot be read as row-major storage of the stated
    /// extents.
    Layout,
    /// A sample panel of which no point lands on a usable cell.
    EmptyReference,
}

} // verus!
