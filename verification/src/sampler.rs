//! Seeded, reproducible draws of reference cells.
//!
//! A draw picks positions in the population, never values: it shuffles the
//! first `k` places of the arrangement `0, 1, .., n - 1` with a generator
//! that is a function of the seed alone, and reads the population at the
//! positions that end up there. The sample is handed out in ascending
//! order.

use vstd::prelude::*;
use vstd::seq_lib::{to_multiset_contains, to_multiset_len};
use crate::sort::{ascending, ascending_is_unique, sort_ascending};

verus! {

/// Increment of the generator's state, the odd integer nearest to
/// 2^64 divided by the golden ratio.
pub const GOLDEN: u64 = 0x9e37_79b9_7f4a_7c15;

/// First multiplier of the output scrambler.
pub const MIX_A: u64 = 0xbf58_476d_1ce4_e5b9;

/// Second multiplier of the output scrambler.
pub const MIX_B: u64 = 0x94d0_49bb_1331_11eb;

/// The generator's state after `steps` outputs.
pub open spec fn state_after(seed: u64, steps: nat) -> u64
    decreases steps,
{
    if steps == 0 {
        seed
    } else {
        state_after(seed, (steps - 1) as nat).wrapping_add(GOLDEN)
    }
}

/// The output that belongs to a state.
pub open spec fn scramble(state: u64) -> u64 {
    let a = (state ^ (state >> 30)).wrapping_mul(MIX_A);
    let b = (a ^ (a >> 27)).wrapping_mul(MIX_B);
    b ^ (b >> 31)
}

/// The `i`-th output of a generator started at `seed`, counted from 1.
pub open spec fn output(seed: u64, i: nat) -> u64 {
    scramble(state_after(seed, i))
}

/// A SplitMix64 generator.
pub struct SplitMix {
    state: u64,
}

impl SplitMix {
    /// The current state.
    pub closed spec fn state(&self) -> u64 {
        self.state
    }

    /// A generator that starts at `seed`.
    pub fn new(seed: u64) -> (generator: SplitMix)
        ensures
            generator.state() == seed,
    {
        SplitMix { state: seed }
    }

    /// Advances the state and gives its output.
    pub fn next_u64(&mut self) -> (out: u64)
        ensures
            final(self).state() == old(self).state().wrapping_add(GOLDEN),
            out == scramble(final(self).state()),
    {
        self.state = self.state.wrapping_add(GOLDEN);
        let a: u64 = (self.state ^ (self.state >> 30)).wrapping_mul(MIX_A);
        let b: u64 = (a ^ (a >> 27)).wrapping_mul(MIX_B);
        b ^ (b >> 31)
    }

    /// The next output reduced to a position below `bound`.
    pub fn below(&mut self, bound: usize) -> (position: usize)
        requires
            bound > 0,
        ensures
            final(self).state() == old(self).state().wrapping_add(GOLDEN),
            position == scramble(final(self).state()) % (bound as u64),
            position < bound,
    {
        let out: u64 = self.next_u64();
        (out % (bound as u64)) as usize
    }
}

/// The arrangement `0, 1, .., n - 1`.
pub open spec fn identity(n: nat) -> Seq<usize> {
    Seq::new(n, |i: int| i as usize)
}

/// The arrangement with the entries at two places exchanged.
pub open spec fn exchanged(s: Seq<usize>, i: int, j: int) -> Seq<usize> {
    s.update(i, s[j]).update(j, s[i])
}

/// The place that step `step` (counted from 0) of a shuffle of `n`
/// positions exchanges with place `step`: one of the places from `step` on,
/// chosen by the generator's next output.
pub open spec fn partner(n: nat, step: nat, seed: u64) -> int {
    step + output(seed, step + 1) % ((n - step) as u64)
}

/// The arrangement of `n` positions after `steps` steps of the shuffle.
pub open spec fn arrangement(n: nat, steps: nat, seed: u64) -> Seq<usize>
    decreases steps,
{
    if steps == 0 {
        identity(n)
    } else {
        exchanged(
            arrangement(n, (steps - 1) as nat, seed),
            steps - 1,
            partner(n, (steps - 1) as nat, seed),
        )
    }
}

/// The cells that a draw of `k` from the population picks, in the order in
/// which the shuffle placed them.
pub open spec fn picked_cells(population: Seq<usize>, k: nat, seed: u64) -> Seq<usize> {
    Seq::new(k, |t: int| population[arrangement(population.len(), k, seed)[t] as int])
}

/// What a draw holds before it is put in order: the whole population when
/// `k` reaches its size, the picked cells otherwise.
pub open spec fn drawn(population: Seq<usize>, k: nat, seed: u64) -> Seq<usize> {
    if k >= population.len() {
        population
    } else {
        picked_cells(population, k, seed)
    }
}

/// `sample` is the draw of `k` from the population under `seed`: the drawn
/// cells, each as often as it was drawn, in ascending order.
pub open spec fn is_draw(sample: Seq<usize>, population: Seq<usize>, k: nat, seed: u64) -> bool {
    &&& ascending(sample)
    &&& sample.to_multiset() == drawn(population, k, seed).to_multiset()
}

/// Every arrangement of the shuffle holds each of the `n` positions once.
pub proof fn arrangement_is_rearrangement(n: nat, steps: nat, seed: u64)
    requires
        steps <= n <= usize::MAX,
    ensures
        arrangement(n, steps, seed).len() == n,
        forall|i: int| 0 <= i < n ==> #[trigger] arrangement(n, steps, seed)[i] < n,
        arrangement(n, steps, seed).no_duplicates(),
    decreases steps,
{
    if steps > 0 {
        let before = arrangement(n, (steps - 1) as nat, seed);
        let after = arrangement(n, steps, seed);
        let i = steps - 1;
        let j = partner(n, (steps - 1) as nat, seed);
        arrangement_is_rearrangement(n, (steps - 1) as nat, seed);
        assert(i <= j < n);
        assert forall|a: int, b: int| 0 <= a < n && 0 <= b < n && a != b implies after[a]
            != after[b] by {
            let from_a = if a == i {
                j
            } else if a == j {
                i
            } else {
                a
            };
            let from_b = if b == i {
                j
            } else if b == j {
                i
            } else {
                b
            };
            assert(after[a] == before[from_a]);
            assert(after[b] == before[from_b]);
        }
    }
}

/// Draws `k` cells from the population.
///
/// With `k` at or above the population's size the draw is the whole
/// population. Below it, the draw holds the cells at `k` distinct positions
/// that depend on the population's size, `k` and `seed` only. Either way
/// the sample comes out in ascending order.
pub fn draw(population: &Vec<usize>, k: usize, seed: u64) -> (sample: Vec<usize>)
    ensures
        is_draw(sample@, population@, k as nat, seed),
        sample.len() == if k < population.len() {
            k
        } else {
            population.len()
        },
{
    let n: usize = population.len();
    if k >= n {
        return sort_ascending(population);
    }
    let mut order: Vec<usize> = Vec::with_capacity(n);
    let mut place: usize = 0;
    while place < n
        invariant
            place <= n,
            order@ == identity(place as nat),
        decreases n - place,
    {
        order.push(place);
        assert(order@ =~= identity((place + 1) as nat));
        place += 1;
    }
    let mut generator = SplitMix::new(seed);
    let mut step: usize = 0;
    while step < k
        invariant
            step <= k < n,
            n == population.len(),
            order@ == arrangement(n as nat, step as nat, seed),
            generator.state() == state_after(seed, step as nat),
        decreases k - step,
    {
        proof {
            arrangement_is_rearrangement(n as nat, step as nat, seed);
        }
        let other: usize = step + generator.below(n - step);
        assert(other == partner(n as nat, step as nat, seed));
        let here: usize = order[step];
        let there: usize = order[other];
        order.set(step, there);
        order.set(other, here);
        step += 1;
    }
    let mut cells: Vec<usize> = Vec::with_capacity(k);
    let mut taken: usize = 0;
    while taken < k
        invariant
            taken <= k < n,
            n == population.len(),
            order@ == arrangement(n as nat, k as nat, seed),
            cells@ == picked_cells(population@, k as nat, seed).take(taken as int),
        decreases k - taken,
    {
        proof {
            arrangement_is_rearrangement(n as nat, k as nat, seed);
        }
        cells.push(population[order[taken]]);
        assert(cells@ =~= picked_cells(population@, k as nat, seed).take(taken + 1));
        taken += 1;
    }
    assert(cells@ =~= picked_cells(population@, k as nat, seed));
    sort_ascending(&cells)
}

/// Same seed, same population, same count: same sample. Two sequences that
/// both are the draw are equal.
pub proof fn draw_is_unique(
    first: Seq<usize>,
    second: Seq<usize>,
    population: Seq<usize>,
    k: nat,
    seed: u64,
)
    requires
        is_draw(first, population, k, seed),
        is_draw(second, population, k, seed),
    ensures
        first == second,
{
    ascending_is_unique(first, second);
}

/// A draw has the size asked for, capped by the size of the population, and
/// holds cells of the population only.
pub proof fn draw_stays_in_population(
    sample: Seq<usize>,
    population: Seq<usize>,
    k: nat,
    seed: u64,
)
    requires
        is_draw(sample, population, k, seed),
        population.len() <= usize::MAX,
    ensures
        sample.len() == if k < population.len() {
            k
        } else {
            population.len()
        },
        forall|i: int| 0 <= i < sample.len() ==> population.contains(#[trigger] sample[i]),
{
    let source = drawn(population, k, seed);
    to_multiset_len(sample);
    to_multiset_len(source);
    if k < population.len() {
        arrangement_is_rearrangement(population.len(), k, seed);
    }
    assert forall|i: int| 0 <= i < sample.len() implies population.contains(
        #[trigger] sample[i],
    ) by {
        to_multiset_contains(sample, sample[i]);
        to_multiset_contains(source, sample[i]);
        assert(sample.contains(sample[i]));
        let t = choose|t: int| 0 <= t < source.len() && source[t] == sample[i];
        if k < population.len() {
            let position = arrangement(population.len(), k, seed)[t];
            assert(population[position as int] == sample[i]);
        }
    }
}

/// A draw from a population in which no cell occurs twice holds no cell
/// twice: it ascends strictly.
pub proof fn draw_of_distinct_is_strict(
    sample: Seq<usize>,
    population: Seq<usize>,
    k: nat,
    seed: u64,
)
    requires
        is_draw(sample, population, k, seed),
        population.no_duplicates(),
        population.len() <= usize::MAX,
    ensures
        forall|a: int, b: int| 0 <= a < b < sample.len() ==> sample[a] < sample[b],
{
    let source = drawn(population, k, seed);
    if k < population.len() {
        let order = arrangement(population.len(), k, seed);
        arrangement_is_rearrangement(population.len(), k, seed);
        assert forall|i: int, j: int|
            0 <= i < source.len() && 0 <= j < source.len() && i != j implies source[i]
            != source[j] by {
            assert(order[i] != order[j]);
            assert(order[i] < population.len() && order[j] < population.len());
        }
    }
    source.lemma_multiset_has_no_duplicates();
    sample.lemma_multiset_has_no_duplicates_conv();
}

} // verus!
