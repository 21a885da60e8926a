//! The decisions of georeferencing: whether a transform can be inverted,
//! which cell a recovered fractional position falls into, and how flat cell
//! indices relate to rows and columns.
//!
//! The arithmetic of the transform itself is done on floating-point values
//! by the caller; what it hands over are determinants and fractional
//! positions as binary64 bit patterns.

use vstd::prelude::*;
use crate::error::EngineError;
use crate::ieee::{floor_index, floor_magnitude64, in_half_open64, magnitude64};

verus! {

/// The binary64 pattern of 1e-10: a determinant of smaller magnitude makes
/// a transform singular.
pub const SINGULAR_BELOW: u64 = 0x3ddb_7cdf_d9d7_bdbb;

/// The determinant's magnitude is below the threshold. A NaN is not below
/// anything.
pub open spec fn is_singular(determinant: u64) -> bool {
    magnitude64(determinant) < SINGULAR_BELOW
}

/// The cell that a fractional position falls into, if it lies inside a
/// raster of `nrows` by `ncols` cells.
pub open spec fn cell_at(row: u64, col: u64, nrows: nat, ncols: nat) -> Option<(usize, usize)> {
    if in_half_open64(row, nrows) && in_half_open64(col, ncols) {
        Some((floor_magnitude64(row) as usize, floor_magnitude64(col) as usize))
    } else {
        None
    }
}

/// Whether a transform with this determinant is singular.
pub fn singular(determinant: u64) -> (r: bool)
    ensures
        r == is_singular(determinant),
{
    assert(determinant & 0x7fff_ffff_ffff_ffff == determinant % 0x8000_0000_0000_0000)
        by (bit_vector);
    (determinant & 0x7fff_ffff_ffff_ffff) < SINGULAR_BELOW
}

/// Floors a fractional (row, col) position to the cell it falls into.
///
/// Gives the cell exactly when the row lies in `[0, nrows)` and the column
/// in `[0, ncols)`; a position outside, infinite or NaN has no cell.
pub fn locate(row: u64, col: u64, nrows: usize, ncols: usize) -> (cell: Option<(usize, usize)>)
    ensures
        cell == cell_at(row, col, nrows as nat, ncols as nat),
{
    match floor_index(row, nrows) {
        Some(r) => match floor_index(col, ncols) {
            Some(c) => Some((r, c)),
            None => None,
        },
        None => None,
    }
}

/// Row and column of a flat cell index in a raster of `ncols` columns.
///
/// A raster without columns has no cells to decode: that is a numeric
/// parameter error.
pub fn decode(index: usize, ncols: usize) -> (r: Result<(usize, usize), EngineError>)
    ensures
        r is Ok <==> ncols > 0,
        match r {
            Ok((row, col)) => row == index / ncols && col == index % ncols && row * ncols + col
                == index && col < ncols,
            Err(e) => e == EngineError::NumericParameter,
        },
{
    if ncols == 0 {
        return Err(EngineError::NumericParameter);
    }
    assert((index / ncols) * ncols + index % ncols == index) by (nonlinear_arith)
        requires
            ncols > 0,
    ;
    Ok((index / ncols, index % ncols))
}

/// Flat index of the cell at (row, col) in a raster of `ncols` columns, if
/// the column exists and the index fits the machine.
pub fn flat_index(row: usize, col: usize, ncols: usize) -> (index: Option<usize>)
    ensures
        index == if col < ncols && row * ncols + col <= usize::MAX {
            Some((row * ncols + col) as usize)
        } else {
            None::<usize>
        },
{
    if col >= ncols {
        return None;
    }
    match row.checked_mul(ncols) {
        Some(start) => start.checked_add(col),
        None => None,
    }
}

/// Decoding undoes flattening: a cell's flat index decodes to its row and
/// column again.
pub proof fn decode_inverts_flat_index(row: nat, col: nat, ncols: nat)
    requires
        col < ncols,
    ensures
        (row * ncols + col) / ncols == row,
        (row * ncols + col) % ncols == col,
{
    vstd::arithmetic::div_mod::lemma_fundamental_div_mod_converse(
        (row * ncols + col) as int,
        ncols as int,
        row as int,
        col as int,
    );
}

} // verus!
