//! Band-vector storage over a validity mask.
//!
//! A raster is a matrix of `cells` rows and `bands` columns held in one
//! contiguous buffer, all bands of cell 0 first. Band values are binary32
//! bit patterns. A cell is valid when every one of its band values is
//! finite; the mask is computed once, when the view is built.

use vstd::prelude::*;
use vstd::slice::slice_subrange;
use crate::error::EngineError;
use crate::ieee::{finite32, is_finite32};

verus! {

/// Every value of the vector is finite.
pub open spec fn all_finite(vector: Seq<u32>) -> bool {
    forall|b: int| 0 <= b < vector.len() ==> is_finite32(#[trigger] vector[b])
}

/// The band vector of one cell inside a row-major buffer.
pub open spec fn band_vector(data: Seq<u32>, bands: nat, cell: int) -> Seq<u32> {
    data.subrange(cell * bands, (cell + 1) * bands)
}

/// The valid cells among the first `n`, in ascending order.
pub open spec fn valid_below(data: Seq<u32>, bands: nat, n: nat) -> Seq<usize>
    decreases n,
{
    if n == 0 {
        Seq::empty()
    } else if all_finite(band_vector(data, bands, n - 1)) {
        valid_below(data, bands, (n - 1) as nat).push((n - 1) as usize)
    } else {
        valid_below(data, bands, (n - 1) as nat)
    }
}

/// A read-only raster with its validity mask.
#[derive(Debug)]
pub struct RasterView {
    data: Vec<u32>,
    cells: usize,
    bands: usize,
    valid: Vec<bool>,
}

impl RasterView {
    /// Number of cells.
    pub closed spec fn cells(&self) -> nat {
        self.cells as nat
    }

    /// Number of bands per cell.
    pub closed spec fn bands(&self) -> nat {
        self.bands as nat
    }

    /// The buffer, cell after cell.
    pub closed spec fn data(&self) -> Seq<u32> {
        self.data@
    }

    /// The band vector of a cell.
    pub open spec fn vector(&self, cell: int) -> Seq<u32> {
        band_vector(self.data(), self.bands(), cell)
    }

    /// The cell holds no infinity and no NaN.
    pub open spec fn cell_valid(&self, cell: int) -> bool {
        all_finite(self.vector(cell))
    }

    /// The valid cells in ascending order.
    pub open spec fn valid_cells(&self) -> Seq<usize> {
        valid_below(self.data(), self.bands(), self.cells())
    }

    /// At least two bands, a buffer of exactly `cells * bands` values, and a
    /// mask that agrees with the buffer. Every view that exists at run time
    /// is well formed.
    #[verifier::type_invariant]
    pub closed spec fn wf(&self) -> bool {
        &&& self.bands >= 2
        &&& self.data.len() == self.cells * self.bands
        &&& self.valid.len() == self.cells
        &&& forall|c: int| 0 <= c < self.cells ==> #[trigger] self.valid[c] == self.cell_valid(c)
    }

    /// What well-formedness says of the extents.
    pub proof fn extents(&self)
        requires
            self.wf(),
        ensures
            self.bands() >= 2,
            self.cells() <= usize::MAX,
            self.data().len() == self.cells() * self.bands(),
    {
    }

    /// Wraps a buffer of `nrows * ncols` cells with `bands` values each.
    ///
    /// Refuses fewer than two bands as a shape error, and a buffer whose
    /// length is not `nrows * ncols * bands` as a layout error.
    pub fn build(buffer: Vec<u32>, nrows: usize, ncols: usize, bands: usize) -> (r: Result<
        RasterView,
        EngineError,
    >)
        ensures
            r is Ok <==> bands >= 2 && nrows * ncols * bands == buffer.len(),
            match r {
                Ok(view) => {
                    &&& view.wf()
                    &&& view.data() == buffer@
                    &&& view.cells() == nrows * ncols
                    &&& view.bands() == bands
                },
                Err(e) => e == if bands < 2 {
                    EngineError::Shape
                } else {
                    EngineError::Layout
                },
            },
    {
        if bands < 2 {
            return Err(EngineError::Shape);
        }
        let cells: usize = match nrows.checked_mul(ncols) {
            Some(cells) => cells,
            None => {
                assert(nrows * ncols * bands > usize::MAX) by (nonlinear_arith)
                    requires
                        nrows * ncols > usize::MAX,
                        bands >= 2,
                ;
                return Err(EngineError::Layout);
            },
        };
        let total: usize = match cells.checked_mul(bands) {
            Some(total) => total,
            None => {
                return Err(EngineError::Layout);
            },
        };
        if total != buffer.len() {
            return Err(EngineError::Layout);
        }
        let mut valid: Vec<bool> = Vec::with_capacity(cells);
        let mut cell: usize = 0;
        let mut base: usize = 0;
        while cell < cells
            invariant
                cell <= cells,
                base == cell * bands,
                buffer.len() == cells * bands,
                valid.len() == cell,
                forall|c: int|
                    0 <= c < cell ==> #[trigger] valid[c] == all_finite(
                        band_vector(buffer@, bands as nat, c),
                    ),
            decreases cells - cell,
        {
            assert(base + bands == (cell + 1) * bands && (cell + 1) * bands <= cells * bands)
                by (nonlinear_arith)
                requires
                    base == cell * bands,
                    cell < cells,
            ;
            let ghost vector = band_vector(buffer@, bands as nat, cell as int);
            let mut finite: bool = true;
            let mut b: usize = 0;
            while b < bands
                invariant
                    b <= bands,
                    base + bands <= buffer.len(),
                    base == cell * bands,
                    base + bands == (cell + 1) * bands,
                    vector == band_vector(buffer@, bands as nat, cell as int),
                    vector.len() == bands,
                    finite == forall|k: int| 0 <= k < b ==> is_finite32(#[trigger] vector[k]),
                decreases bands - b,
            {
                assert(vector[b as int] == buffer@[base + b]);
                finite = finite32(buffer[base + b]) && finite;
                b += 1;
            }
            valid.push(finite);
            base += bands;
            cell += 1;
        }
        Ok(RasterView { data: buffer, cells, bands, valid })
    }

    /// Number of cells.
    pub fn total_cells(&self) -> (n: usize)
        ensures
            n == self.cells(),
    {
        self.cells
    }

    /// Number of bands per cell.
    pub fn band_count(&self) -> (n: usize)
        ensures
            n == self.bands(),
    {
        self.bands
    }

    /// The band vector of a cell.
    pub fn row(&self, cell: usize) -> (vector: &[u32])
        requires
            cell < self.cells(),
        ensures
            vector@ == self.vector(cell as int),
            vector@.len() == self.bands(),
    {
        proof {
            use_type_invariant(self);
        }
        assert(cell * self.bands + self.bands == (cell + 1) * self.bands && (cell + 1)
            * self.bands <= self.cells * self.bands) by (nonlinear_arith)
            requires
                cell < self.cells,
        ;
        let start: usize = cell * self.bands;
        slice_subrange(self.data.as_slice(), start, start + self.bands)
    }

    /// Whether a cell is valid. A cell outside the raster is not.
    pub fn is_valid(&self, cell: usize) -> (valid: bool)
        ensures
            valid == (cell < self.cells() && self.cell_valid(cell as int)),
    {
        proof {
            use_type_invariant(self);
        }
        cell < self.cells && self.valid[cell]
    }

    /// The valid cells in ascending order.
    pub fn valid_indices(&self) -> (indices: Vec<usize>)
        ensures
            indices@ == self.valid_cells(),
    {
        proof {
            use_type_invariant(self);
        }
        let mut indices: Vec<usize> = Vec::new();
        let mut cell: usize = 0;
        while cell < self.cells
            invariant
                self.wf(),
                cell <= self.cells,
                indices@ == valid_below(self.data(), self.bands(), cell as nat),
            decreases self.cells - cell,
        {
            if self.valid[cell] {
                indices.push(cell);
            }
            cell += 1;
        }
        indices
    }
}

/// The valid cells below `n` are exactly that: each is below `n` and
/// valid, every valid cell below `n` is among them, and they ascend
/// strictly, so none occurs twice.
pub proof fn valid_below_characterised(data: Seq<u32>, bands: nat, n: nat)
    requires
        n <= usize::MAX + 1,
    ensures
        valid_below(data, bands, n).len() <= n,
        forall|c: usize|
            valid_below(data, bands, n).contains(c) <==> c < n && all_finite(
                band_vector(data, bands, c as int),
            ),
        forall|a: int, b: int|
            0 <= a < b < valid_below(data, bands, n).len() ==> valid_below(data, bands, n)[a]
                < valid_below(data, bands, n)[b],
    decreases n,
{
    if n > 0 {
        let rest = valid_below(data, bands, (n - 1) as nat);
        let all = valid_below(data, bands, n);
        let last = (n - 1) as usize;
        valid_below_characterised(data, bands, (n - 1) as nat);
        if all_finite(band_vector(data, bands, n - 1)) {
            assert(all == rest.push(last));
            assert forall|c: usize| all.contains(c) implies c < n && all_finite(
                band_vector(data, bands, c as int),
            ) by {
                let i = choose|i: int| 0 <= i < all.len() && all[i] == c;
                if i < rest.len() {
                    assert(rest[i] == c);
                    assert(rest.contains(c));
                } else {
                    assert(c == last);
                }
            }
            assert forall|c: usize|
                c < n && all_finite(band_vector(data, bands, c as int)) implies all.contains(
                c,
            ) by {
                if c < n - 1 {
                    assert(rest.contains(c));
                    let i = choose|i: int| 0 <= i < rest.len() && rest[i] == c;
                    assert(all[i] == c);
                } else {
                    assert(all[rest.len() as int] == c);
                }
            }
            assert forall|a: int, b: int| 0 <= a < b < all.len() implies all[a] < all[b] by {
                assert(rest[a] == all[a]);
                assert(rest.contains(all[a]));
                if b < rest.len() {
                    assert(rest[b] == all[b]);
                }
            }
        }
    }
}

/// The valid cells below `a` open the sequence of the valid cells below any
/// `b` from `a` on.
pub proof fn valid_below_extends(data: Seq<u32>, bands: nat, a: nat, b: nat)
    requires
        a <= b,
    ensures
        valid_below(data, bands, a).len() <= valid_below(data, bands, b).len(),
        valid_below(data, bands, b).take(valid_below(data, bands, a).len() as int) == valid_below(
            data,
            bands,
            a,
        ),
    decreases b,
{
    let short = valid_below(data, bands, a);
    let long = valid_below(data, bands, b);
    if a == b {
        assert(long.take(long.len() as int) =~= long);
    } else {
        let rest = valid_below(data, bands, (b - 1) as nat);
        valid_below_extends(data, bands, a, (b - 1) as nat);
        assert(long.take(short.len() as int) =~= rest.take(short.len() as int));
    }
}

/// The place of a valid cell among the valid cells is the number of valid
/// cells before it.
pub proof fn valid_below_ranks(data: Seq<u32>, bands: nat, n: nat)
    requires
        n <= usize::MAX + 1,
    ensures
        forall|r: int|
            0 <= r < valid_below(data, bands, n).len() ==> valid_below(
                data,
                bands,
                (#[trigger] valid_below(data, bands, n)[r]) as nat,
            ).len() == r,
    decreases n,
{
    if n > 0 {
        let rest = valid_below(data, bands, (n - 1) as nat);
        let all = valid_below(data, bands, n);
        valid_below_ranks(data, bands, (n - 1) as nat);
        assert forall|r: int| 0 <= r < all.len() implies valid_below(
            data,
            bands,
            (#[trigger] all[r]) as nat,
        ).len() == r by {
            if r < rest.len() {
                assert(all[r] == rest[r]);
            }
        }
    }
}

} // verus!
