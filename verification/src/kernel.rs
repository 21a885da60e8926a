//! Planning of the aggregation kernels.
//!
//! A kernel run has three parts. Before any cell is looked at, the
//! parameters are checked and the reference set is fixed. Then every valid
//! cell is aggregated against its partners in the reference set, each cell
//! on its own. At the end the per-cell aggregates are laid out over the
//! whole raster, with the missing marker on every invalid cell. This module
//! holds the first and the last part, and of the middle part everything
//! but the arithmetic on distances: which reference cells a cell is
//! compared with, and which of the distances to a sample panel is the
//! nearest.
//!
//! Aggregates and distances are binary64 bit patterns, geographic distances
//! and radii binary32 bit patterns.

use vstd::prelude::*;
use crate::error::EngineError;
use crate::georef::flat_index;
use crate::ieee::{
    INFINITY64,
    NAN64,
    is_nan64,
    is_positive_finite64,
    le32,
    magnitude64,
    negative64,
    less64,
    less_equal32,
    lt64,
    positive_finite64,
};
use crate::raster::{
    RasterView,
    valid_below,
    valid_below_characterised,
    valid_below_extends,
    valid_below_ranks,
};
use crate::sampler::{draw, draw_is_unique, draw_of_distinct_is_strict, draw_stays_in_population, is_draw};

verus! {

/// `samples` is the reference set for a requested count: the whole
/// population when nothing is requested, the seeded draw otherwise.
pub open spec fn is_reference_set(
    samples: Seq<usize>,
    population: Seq<usize>,
    sample_count: nat,
    seed: u64,
) -> bool {
    if sample_count == 0 {
        samples == population
    } else {
        is_draw(samples, population, sample_count, seed)
    }
}

/// The samples without the cell itself, in their order.
pub open spec fn others(samples: Seq<usize>, cell: usize) -> Seq<usize>
    decreases samples.len(),
{
    if samples.len() == 0 {
        Seq::empty()
    } else if samples.last() != cell {
        others(samples.drop_last(), cell).push(samples.last())
    } else {
        others(samples.drop_last(), cell)
    }
}

/// The samples without the cell itself and without those farther from it
/// than the radius, in their order. `distances[p]` is the geographic
/// distance from the cell to `samples[p]`.
pub open spec fn others_within(
    samples: Seq<usize>,
    distances: Seq<u32>,
    cell: usize,
    radius: u32,
) -> Seq<usize>
    decreases samples.len(),
{
    if samples.len() == 0 {
        Seq::empty()
    } else if samples.last() != cell && le32(distances[samples.len() - 1], radius) {
        others_within(samples.drop_last(), distances, cell, radius).push(samples.last())
    } else {
        others_within(samples.drop_last(), distances, cell, radius)
    }
}

/// The cell that a located sample point lands on, if that cell exists and
/// is valid.
pub open spec fn landing(view: RasterView, ncols: nat, hit: Option<(usize, usize)>) -> Option<
    usize,
> {
    match hit {
        Some((row, col)) => if col < ncols && row * ncols + col < view.cells() && view.cell_valid(
            row * ncols + col,
        ) {
            Some((row * ncols + col) as usize)
        } else {
            None
        },
        None => None,
    }
}

/// The cells that the located sample points land on, in the order of the
/// points, without the points that land nowhere.
pub open spec fn panel(view: RasterView, ncols: nat, hits: Seq<Option<(usize, usize)>>) -> Seq<
    usize,
>
    decreases hits.len(),
{
    if hits.len() == 0 {
        Seq::empty()
    } else {
        match landing(view, ncols, hits.last()) {
            Some(cell) => panel(view, ncols, hits.drop_last()).push(cell),
            None => panel(view, ncols, hits.drop_last()),
        }
    }
}

/// The nearer of the best distance so far and a candidate. A NaN candidate
/// is never nearer.
pub open spec fn closer(best: u64, candidate: u64) -> u64 {
    if lt64(candidate, best) {
        candidate
    } else {
        best
    }
}

/// The least of the distances, positive infinity if there is none.
pub open spec fn nearest_of(distances: Seq<u64>) -> u64
    decreases distances.len(),
{
    if distances.len() == 0 {
        INFINITY64
    } else {
        closer(nearest_of(distances.drop_last()), distances.last())
    }
}

/// The dense output: the aggregate of each valid cell at that cell, the
/// missing marker at every other. `values[r]` is the aggregate of the
/// `r`-th valid cell.
pub open spec fn dense(view: RasterView, values: Seq<u64>) -> Seq<u64> {
    Seq::new(
        view.cells(),
        |cell: int|
            if view.cell_valid(cell) {
                values[valid_below(view.data(), view.bands(), cell as nat).len() as int]
            } else {
                NAN64
            },
    )
}

/// Accepts a bandwidth that is finite and greater than zero.
pub fn check_bandwidth(bandwidth: u64) -> (r: Result<(), EngineError>)
    ensures
        r is Ok <==> is_positive_finite64(bandwidth),
        r is Err ==> r == Err::<(), EngineError>(EngineError::NumericParameter),
{
    if positive_finite64(bandwidth) {
        Ok(())
    } else {
        Err(EngineError::NumericParameter)
    }
}

/// The reference set of a raster: all its valid cells for a sample count
/// of zero, else a seeded draw of that many from them.
pub fn reference_set(view: &RasterView, sample_count: usize, seed: u64) -> (samples: Vec<usize>)
    ensures
        is_reference_set(samples@, view.valid_cells(), sample_count as nat, seed),
{
    let population = view.valid_indices();
    if sample_count == 0 {
        population
    } else {
        draw(&population, sample_count, seed)
    }
}

/// Checks the parameters of the similarity-sum kernel and fixes its
/// reference set.
pub fn plan_similarity(view: &RasterView, bandwidth: u64, sample_count: usize, seed: u64) -> (r:
    Result<Vec<usize>, EngineError>)
    ensures
        r is Ok <==> is_positive_finite64(bandwidth),
        match r {
            Ok(samples) => is_reference_set(
                samples@,
                view.valid_cells(),
                sample_count as nat,
                seed,
            ),
            Err(e) => e == EngineError::NumericParameter,
        },
{
    if !positive_finite64(bandwidth) {
        return Err(EngineError::NumericParameter);
    }
    Ok(reference_set(view, sample_count, seed))
}

/// Checks the parameters of the dissimilarity-sum kernel and fixes its
/// reference set. The kernel decodes flat indices, so it needs at least one
/// column.
pub fn plan_dissimilarity(
    view: &RasterView,
    ncols: usize,
    bandwidth: u64,
    sample_count: usize,
    seed: u64,
) -> (r: Result<Vec<usize>, EngineError>)
    ensures
        r is Ok <==> is_positive_finite64(bandwidth) && ncols > 0,
        negative64(bandwidth) || magnitude64(bandwidth) == 0 ==> r is Err,
        match r {
            Ok(samples) => is_reference_set(
                samples@,
                view.valid_cells(),
                sample_count as nat,
                seed,
            ),
            Err(e) => e == EngineError::NumericParameter,
        },
{
    if !positive_finite64(bandwidth) || ncols == 0 {
        return Err(EngineError::NumericParameter);
    }
    Ok(reference_set(view, sample_count, seed))
}

/// Fixes the sample panel of the min-distance kernel from the cells that
/// its sample points were located in.
///
/// A point that was located nowhere, or on a cell that does not exist or
/// is invalid, is left out. A raster without columns is a numeric parameter
/// error; a panel of which no point is left is an empty reference error.
pub fn plan_min_distance(view: &RasterView, ncols: usize, hits: &Vec<Option<(usize, usize)>>) -> (r:
    Result<Vec<usize>, EngineError>)
    ensures
        r is Ok <==> ncols > 0 && panel(*view, ncols as nat, hits@).len() > 0,
        match r {
            Ok(cells) => cells@ == panel(*view, ncols as nat, hits@),
            Err(e) => e == if ncols == 0 {
                EngineError::NumericParameter
            } else {
                EngineError::EmptyReference
            },
        },
{
    if ncols == 0 {
        return Err(EngineError::NumericParameter);
    }
    proof {
        use_type_invariant(view);
    }
    let mut cells: Vec<usize> = Vec::new();
    let mut i: usize = 0;
    while i < hits.len()
        invariant
            view.wf(),
            i <= hits.len(),
            cells@ == panel(*view, ncols as nat, hits@.take(i as int)),
        decreases hits.len() - i,
    {
        assert(hits@.take(i + 1).drop_last() =~= hits@.take(i as int));
        assert(hits@.take(i + 1).last() == hits@[i as int]);
        let ghost before = cells@;
        let ghost landed = landing(*view, ncols as nat, hits@[i as int]);
        match hits[i] {
            Some((row, col)) => {
                match flat_index(row, col, ncols) {
                    Some(cell) => {
                        if view.is_valid(cell) {
                            cells.push(cell);
                            assert(landed == Some(cell));
                        } else {
                            assert(landed is None);
                        }
                    },
                    None => {
                        proof {
                            view.extents();
                        }
                        assert(landed is None);
                    },
                }
            },
            None => {
                assert(landed is None);
            },
        }
        assert(cells@ == match landed {
            Some(cell) => before.push(cell),
            None => before,
        });
        i += 1;
    }
    assert(hits@.take(i as int) =~= hits@);
    if cells.len() == 0 {
        Err(EngineError::EmptyReference)
    } else {
        Ok(cells)
    }
}

/// The reference cells that a cell is compared with: all but itself.
pub fn partners(samples: &Vec<usize>, cell: usize) -> (kept: Vec<usize>)
    ensures
        kept@ == others(samples@, cell),
{
    let mut kept: Vec<usize> = Vec::new();
    let mut i: usize = 0;
    while i < samples.len()
        invariant
            i <= samples.len(),
            kept@ == others(samples@.take(i as int), cell),
        decreases samples.len() - i,
    {
        assert(samples@.take(i + 1).drop_last() =~= samples@.take(i as int));
        assert(samples@.take(i + 1).last() == samples@[i as int]);
        if samples[i] != cell {
            kept.push(samples[i]);
        }
        i += 1;
    }
    assert(samples@.take(i as int) =~= samples@);
    kept
}

/// The reference cells that a cell is compared with under radius pruning:
/// all but itself and those farther away than the radius.
///
/// `distances[p]` is the geographic distance from the cell to
/// `samples[p]`; a distance for each sample is expected, anything else is a
/// shape error.
pub fn partners_within(samples: &Vec<usize>, distances: &Vec<u32>, cell: usize, radius: u32) -> (r:
    Result<Vec<usize>, EngineError>)
    ensures
        r is Ok <==> distances.len() == samples.len(),
        match r {
            Ok(kept) => kept@ == others_within(samples@, distances@, cell, radius),
            Err(e) => e == EngineError::Shape,
        },
{
    if distances.len() != samples.len() {
        return Err(EngineError::Shape);
    }
    let mut kept: Vec<usize> = Vec::new();
    let mut i: usize = 0;
    while i < samples.len()
        invariant
            i <= samples.len(),
            distances.len() == samples.len(),
            kept@ == others_within(samples@.take(i as int), distances@, cell, radius),
        decreases samples.len() - i,
    {
        assert(samples@.take(i + 1).drop_last() =~= samples@.take(i as int));
        assert(samples@.take(i + 1).last() == samples@[i as int]);
        if samples[i] != cell && less_equal32(distances[i], radius) {
            kept.push(samples[i]);
        }
        i += 1;
    }
    assert(samples@.take(i as int) =~= samples@);
    Ok(kept)
}

/// One step of the min-distance reduction.
pub fn nearer(best: u64, candidate: u64) -> (r: u64)
    ensures
        r == closer(best, candidate),
{
    if less64(candidate, best) {
        candidate
    } else {
        best
    }
}

/// The least of the distances from a cell to the sample panel.
pub fn nearest(distances: &Vec<u64>) -> (best: u64)
    ensures
        best == nearest_of(distances@),
{
    let mut best: u64 = INFINITY64;
    let mut i: usize = 0;
    while i < distances.len()
        invariant
            i <= distances.len(),
            best == nearest_of(distances@.take(i as int)),
        decreases distances.len() - i,
    {
        assert(distances@.take(i + 1).drop_last() =~= distances@.take(i as int));
        assert(distances@.take(i + 1).last() == distances@[i as int]);
        best = nearer(best, distances[i]);
        i += 1;
    }
    assert(distances@.take(i as int) =~= distances@);
    best
}

/// Lays the per-cell aggregates out over the whole raster.
///
/// `values` holds one aggregate for each valid cell, in ascending order of
/// the cells; any other length is a shape error. The output has one value
/// per cell of the raster, and the missing marker on every invalid cell.
pub fn scatter(view: &RasterView, values: &Vec<u64>) -> (r: Result<Vec<u64>, EngineError>)
    ensures
        r is Ok <==> values.len() == view.valid_cells().len(),
        match r {
            Ok(out) => {
                &&& out@ == dense(*view, values@)
                &&& out.len() == view.cells()
                &&& forall|cell: int|
                    0 <= cell < view.cells() && !view.cell_valid(cell) ==> out[cell] == NAN64
                &&& forall|place: int|
                    0 <= place < values.len() ==> out[view.valid_cells()[place] as int]
                        == values[place]
            },
            Err(e) => e == EngineError::Shape,
        },
{
    proof {
        use_type_invariant(view);
    }
    let cells: usize = view.total_cells();
    let mut out: Vec<u64> = Vec::with_capacity(cells);
    let mut next: usize = 0;
    let mut cell: usize = 0;
    while cell < cells
        invariant
            view.wf(),
            cells == view.cells(),
            cell <= cells,
            next == valid_below(view.data(), view.bands(), cell as nat).len(),
            next <= values.len(),
            out.len() == cell,
            forall|c: int| 0 <= c < cell ==> out[c] == dense(*view, values@)[c],
        decreases cells - cell,
    {
        if view.is_valid(cell) {
            if next >= values.len() {
                proof {
                    valid_below_extends(
                        view.data(),
                        view.bands(),
                        (cell + 1) as nat,
                        cells as nat,
                    );
                }
                return Err(EngineError::Shape);
            }
            out.push(values[next]);
            next += 1;
        } else {
            out.push(NAN64);
        }
        cell += 1;
    }
    if next != values.len() {
        return Err(EngineError::Shape);
    }
    proof {
        assert(out@ =~= dense(*view, values@));
        valid_below_characterised(view.data(), view.bands(), view.cells());
        valid_below_ranks(view.data(), view.bands(), view.cells());
        assert forall|place: int| 0 <= place < values.len() implies out[view.valid_cells()[place] as int]
            == values[place] by {
            let c = view.valid_cells()[place];
            assert(view.valid_cells().contains(c));
        }
    }
    Ok(out)
}

/// A reference set lies within the valid cells of its raster, holds none of
/// them twice, and has the size asked for: all valid cells when nothing or
/// too much is asked for.
pub proof fn reference_set_is_valid(
    samples: Seq<usize>,
    view: RasterView,
    sample_count: nat,
    seed: u64,
)
    requires
        view.wf(),
        is_reference_set(samples, view.valid_cells(), sample_count, seed),
    ensures
        forall|i: int|
            0 <= i < samples.len() ==> (#[trigger] samples[i]) < view.cells() && view.cell_valid(
                samples[i] as int,
            ),
        forall|a: int, b: int| 0 <= a < b < samples.len() ==> samples[a] < samples[b],
        samples.len() == if sample_count == 0 || sample_count >= view.valid_cells().len() {
            view.valid_cells().len()
        } else {
            sample_count
        },
{
    let population = view.valid_cells();
    view.extents();
    valid_below_characterised(view.data(), view.bands(), view.cells());
    if sample_count > 0 {
        draw_stays_in_population(samples, population, sample_count, seed);
        draw_of_distinct_is_strict(samples, population, sample_count, seed);
    }
    assert forall|i: int| 0 <= i < samples.len() implies (#[trigger] samples[i]) < view.cells()
        && view.cell_valid(samples[i] as int) by {
        assert(population.contains(samples[i]));
    }
}

/// Same raster, same count, same seed: same reference set.
pub proof fn reference_set_is_unique(
    first: Seq<usize>,
    second: Seq<usize>,
    population: Seq<usize>,
    sample_count: nat,
    seed: u64,
)
    requires
        is_reference_set(first, population, sample_count, seed),
        is_reference_set(second, population, sample_count, seed),
    ensures
        first == second,
{
    if sample_count > 0 {
        draw_is_unique(first, second, population, sample_count, seed);
    }
}

/// A cell is never its own partner, whether or not it is in the reference
/// set, and every other reference cell is.
pub proof fn others_excludes_self(samples: Seq<usize>, cell: usize)
    ensures
        !others(samples, cell).contains(cell),
        forall|j: usize| j != cell ==> (others(samples, cell).contains(j) <==> samples.contains(j)),
    decreases samples.len(),
{
    if samples.len() > 0 {
        let head = samples.drop_last();
        let last = samples.last();
        let kept = others(samples, cell);
        let kept_head = others(head, cell);
        others_excludes_self(head, cell);
        assert forall|j: usize| j != cell implies (kept.contains(j) <==> samples.contains(j)) by {
            if kept.contains(j) {
                let i = choose|i: int| 0 <= i < kept.len() && kept[i] == j;
                if i < kept_head.len() {
                    assert(kept_head[i] == j);
                    assert(kept_head.contains(j));
                    assert(others(head, cell).contains(j) <==> head.contains(j));
                    let p = choose|p: int| 0 <= p < head.len() && head[p] == j;
                    assert(samples[p] == j);
                } else {
                    assert(samples[samples.len() - 1] == j);
                }
            }
            if samples.contains(j) {
                let p = choose|p: int| 0 <= p < samples.len() && samples[p] == j;
                if p < head.len() {
                    assert(head[p] == j);
                    assert(head.contains(j));
                    assert(others(head, cell).contains(j) <==> head.contains(j));
                    let i = choose|i: int| 0 <= i < kept_head.len() && kept_head[i] == j;
                    assert(kept[i] == j);
                } else {
                    assert(kept[kept.len() - 1] == j);
                }
            }
        }
        if kept.contains(cell) {
            let i = choose|i: int| 0 <= i < kept.len() && kept[i] == cell;
            if i < kept_head.len() {
                assert(kept_head[i] == cell);
                assert(kept_head.contains(cell));
            }
        }
    }
}

/// Under radius pruning too a cell is never its own partner, and every
/// partner is a reference cell within the radius.
pub proof fn others_within_excludes_self(
    samples: Seq<usize>,
    distances: Seq<u32>,
    cell: usize,
    radius: u32,
)
    ensures
        !others_within(samples, distances, cell, radius).contains(cell),
        forall|j: usize|
            others_within(samples, distances, cell, radius).contains(j) ==> exists|p: int|
                0 <= p < samples.len() && samples[p] == j && le32(#[trigger] distances[p], radius),
    decreases samples.len(),
{
    if samples.len() > 0 {
        let head = samples.drop_last();
        let kept = others_within(samples, distances, cell, radius);
        let kept_head = others_within(head, distances, cell, radius);
        others_within_excludes_self(head, distances, cell, radius);
        assert forall|j: usize| kept.contains(j) implies j != cell && exists|p: int|
            0 <= p < samples.len() && samples[p] == j && le32(
                #[trigger] distances[p],
                radius,
            ) by {
            let i = choose|i: int| 0 <= i < kept.len() && kept[i] == j;
            if i < kept_head.len() {
                assert(kept_head[i] == j);
                assert(kept_head.contains(j));
                let p = choose|p: int|
                    0 <= p < head.len() && head[p] == j && le32(#[trigger] distances[p], radius);
                assert(samples[p] == j);
            } else {
                let p = samples.len() - 1;
                assert(samples[p] == j && le32(distances[p], radius));
            }
        }
    }
}

/// A radius that reaches no other reference cell leaves a cell without
/// partners.
pub proof fn nothing_within_reach(
    samples: Seq<usize>,
    distances: Seq<u32>,
    cell: usize,
    radius: u32,
)
    requires
        forall|p: int|
            0 <= p < samples.len() && samples[p] != cell ==> !le32(#[trigger] distances[p], radius),
    ensures
        others_within(samples, distances, cell, radius) == Seq::<usize>::empty(),
    decreases samples.len(),
{
    if samples.len() > 0 {
        let head = samples.drop_last();
        assert forall|p: int| 0 <= p < head.len() && head[p] != cell implies !le32(
            #[trigger] distances[p],
            radius,
        ) by {
            assert(samples[p] == head[p]);
        }
        nothing_within_reach(head, distances, cell, radius);
    }
}

/// The nearest distance is no NaN, none of the distances is below it, and
/// it is one of them unless it is positive infinity.
pub proof fn nearest_is_least(distances: Seq<u64>)
    ensures
        !is_nan64(nearest_of(distances)),
        forall|i: int|
            0 <= i < distances.len() ==> !lt64(#[trigger] distances[i], nearest_of(distances)),
        nearest_of(distances) == INFINITY64 || distances.contains(nearest_of(distances)),
    decreases distances.len(),
{
    if distances.len() > 0 {
        let head = distances.drop_last();
        let last = distances.last();
        let best = nearest_of(head);
        nearest_is_least(head);
        assert forall|i: int| 0 <= i < distances.len() implies !lt64(
            #[trigger] distances[i],
            nearest_of(distances),
        ) by {
            if i < head.len() {
                assert(head[i] == distances[i]);
            }
        }
        if nearest_of(distances) == last {
            assert(distances[distances.len() - 1] == last);
        } else if best != INFINITY64 {
            let i = choose|i: int| 0 <= i < head.len() && head[i] == best;
            assert(distances[i] == best);
        }
    }
}

} // verus!
