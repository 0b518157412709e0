//! Where a smoothed estimate draws its resample from: the evaluation grid of
//! the kernel density estimate, and the choice between raw and resampled data.
use vstd::prelude::*;
use crate::error::InfoError;
use crate::estimate::{histogram_error, masses_spec, max_of, min_of};
use crate::stats::{MAGNITUDE, valid_sample};

verus! {

/// Spacing of the evaluation grid, in thousandths: a tenth of a unit.
pub const GRID_STEP: i64 = 100;

/// How many resampled points are drawn from a kernel density estimate.
pub const RESAMPLE_SIZE: usize = 10_000;

/// Index of the first grid point: `min / GRID_STEP` rounded down.
pub open spec fn grid_first(min: int) -> int {
    min / (GRID_STEP as int)
}

/// One past the index of the last grid point: `max / GRID_STEP` rounded up,
/// plus one.
pub open spec fn grid_end(max: int) -> int {
    -((-max) / (GRID_STEP as int)) + 1
}

/// The evaluation grid over `[min, max]`: the multiples of `GRID_STEP` from
/// index `grid_first(min)` up to, but not including, index `grid_end(max)`.
pub open spec fn grid_spec(min: int, max: int) -> Seq<i64> {
    Seq::new(
        (grid_end(max) - grid_first(min)) as nat,
        |i: int| ((grid_first(min) + i) * GRID_STEP) as i64,
    )
}

/// The evaluation grid of a sample.
pub open spec fn sample_grid(s: Seq<i64>) -> Seq<i64> {
    grid_spec(min_of(s) as int, max_of(s) as int)
}

/// The grid of a sample has too many points to index.
pub open spec fn grid_too_long(s: Seq<i64>) -> bool {
    grid_end(max_of(s) as int) - grid_first(min_of(s) as int) >= usize::MAX
}

/// The evaluation grid for a kernel density estimate of a non-empty sample:
/// the multiples of a tenth of a unit from just below its least value to just
/// above its greatest.
pub fn kde_grid(data: &Vec<i64>) -> (r: Result<Vec<i64>, InfoError>)
    requires
        valid_sample(data@),
    ensures
        data@.len() == 0 ==> r == Err::<Vec<i64>, InfoError>(InfoError::EmptySample),
        data@.len() > 0 && grid_too_long(data@) ==> r == Err::<Vec<i64>, InfoError>(
            InfoError::TooManyBins,
        ),
        data@.len() > 0 && !grid_too_long(data@) ==> r is Ok,
        r matches Ok(g) ==> g@ == sample_grid(data@),
{
    if data.len() == 0 {
        return Err(InfoError::EmptySample);
    }
    let lo = crate::stats::min(data);
    let hi = crate::stats::max(data);
    proof {
        crate::estimate::lemma_min_unique(data@, lo);
        crate::estimate::lemma_max_unique(data@, hi);
        let i = choose|i: int| 0 <= i < data@.len() && data@[i] == lo;
        let j = choose|j: int| 0 <= j < data@.len() && data@[j] == hi;
        assert(data@[i] <= data@[j]);
    }
    let first: i64 = (lo + MAGNITUDE) / GRID_STEP - MAGNITUDE / GRID_STEP;
    let end: i64 = (hi + MAGNITUDE + GRID_STEP - 1) / GRID_STEP - MAGNITUDE / GRID_STEP + 1;
    assert(first == grid_first(lo as int));
    assert(end == grid_end(hi as int));
    if (end - first) as u64 >= usize::MAX as u64 {
        return Err(InfoError::TooManyBins);
    }
    let len: usize = (end - first) as usize;
    let mut grid: Vec<i64> = Vec::new();
    let mut i: usize = 0;
    while i < len
        invariant
            i <= len,
            len == end - first,
            first == grid_first(lo as int),
            -MAGNITUDE <= lo <= hi <= MAGNITUDE,
            end == grid_end(hi as int),
            grid@.len() == i,
            forall|t: int| 0 <= t < i ==> #[trigger] grid@[t] == (first + t) * GRID_STEP,
        decreases len - i,
    {
        grid.push((first + i as i64) * GRID_STEP);
        i = i + 1;
    }
    assert(grid@ =~= grid_spec(lo as int, hi as int));
    Ok(grid)
}

/// How a sample is turned into a distribution before it is binned.
#[derive(Debug, Clone, Copy, PartialEq, Eq, Structural)]
pub enum Mode {
    /// Bin the observed values themselves.
    Data,
    /// Bin a resample drawn from a kernel density estimate of the values.
    Kde,
}

/// What an entropy estimate is computed from.
#[derive(Debug)]
pub enum Source {
    /// The observed values.
    Raw,
    /// A resample of `RESAMPLE_SIZE` points drawn from a kernel density
    /// estimate evaluated on this grid.
    Resample(Vec<i64>),
}

/// What a mutual-information estimate is computed from.
#[derive(Debug)]
pub enum PairSource {
    /// The observed pairs.
    Raw,
    /// Independent resamples of each sample, drawn from kernel density
    /// estimates evaluated on these grids, the first sample's grid first.
    Resample(Vec<i64>, Vec<i64>),
}

/// A resample is drawn only from a sample of two or more values whose grid
/// has at least two points; otherwise the raw values are used.
pub open spec fn resamples(s: Seq<i64>) -> bool {
    s.len() >= 2 && sample_grid(s).len() >= 2
}

/// What the entropy of `data` in the given mode is computed from. In `Kde`
/// mode a sample of two or more values is resampled over its grid, unless
/// the grid has fewer than two points; a lone value needs no resample.
pub fn entropy_source(data: &Vec<i64>, mode: Mode) -> (r: Result<Source, InfoError>)
    requires
        valid_sample(data@),
    ensures
        mode == Mode::Data ==> (r matches Ok(Source::Raw)),
        mode == Mode::Kde ==> {
            &&& (data@.len() == 0 <==> (r matches Err(InfoError::EmptySample)))
            &&& (data@.len() >= 1 && grid_too_long(data@) <==> (r matches Err(InfoError::TooManyBins)))
            &&& ((r matches Ok(Source::Raw)) <==> data@.len() >= 1 && !grid_too_long(data@)
                && !resamples(data@))
            &&& r matches Ok(Source::Resample(g)) ==> resamples(data@) && g@ == sample_grid(data@)
        },
{
    match mode {
        Mode::Data => Ok(Source::Raw),
        Mode::Kde => {
            let grid = match kde_grid(data) {
                Ok(g) => g,
                Err(e) => {
                    return Err(e);
                },
            };
            if data.len() < 2 || grid.len() < 2 {
                Ok(Source::Raw)
            } else {
                Ok(Source::Resample(grid))
            }
        },
    }
}

/// What the mutual information of `x` and `y` in the given mode is computed
/// from. The samples must pair up: different lengths fail, never truncate.
/// In `Kde` mode both samples are resampled when each of them would be on
/// its own; otherwise the raw pairs are used.
pub fn pair_source(x: &Vec<i64>, y: &Vec<i64>, mode: Mode) -> (r: Result<PairSource, InfoError>)
    requires
        valid_sample(x@),
        valid_sample(y@),
    ensures
        x@.len() != y@.len() <==> (r matches Err(InfoError::LengthMismatch)),
        x@.len() == y@.len() ==> {
            &&& (x@.len() == 0 <==> (r matches Err(InfoError::EmptySample)))
            &&& (mode == Mode::Data && x@.len() > 0 ==> (r matches Ok(PairSource::Raw)))
            &&& (mode == Mode::Kde && x@.len() > 0 ==> {
                &&& ((grid_too_long(x@) || grid_too_long(y@)) <==> (r matches Err(InfoError::TooManyBins)))
                &&& ((r matches Ok(PairSource::Raw)) <==> !grid_too_long(x@) && !grid_too_long(y@)
                    && !(resamples(x@) && resamples(y@)))
                &&& r matches Ok(PairSource::Resample(gx, gy)) ==> resamples(x@) && resamples(y@)
                    && gx@ == sample_grid(x@) && gy@ == sample_grid(y@)
            })
        },
{
    if x.len() != y.len() {
        return Err(InfoError::LengthMismatch);
    }
    if x.len() == 0 {
        return Err(InfoError::EmptySample);
    }
    match mode {
        Mode::Data => Ok(PairSource::Raw),
        Mode::Kde => {
            let gx = match kde_grid(x) {
                Ok(g) => g,
                Err(e) => {
                    return Err(e);
                },
            };
            let gy = match kde_grid(y) {
                Ok(g) => g,
                Err(e) => {
                    return Err(e);
                },
            };
            if x.len() < 2 || gx.len() < 2 || gy.len() < 2 {
                Ok(PairSource::Raw)
            } else {
                Ok(PairSource::Resample(gx, gy))
            }
        },
    }
}

/// A sample of one value is never resampled and puts all its mass in a single
/// bin, whatever the mode and the bin width: its entropy is zero.
pub proof fn lemma_single_value(c: i64, bin_size: Option<i64>)
    ensures
        !resamples(seq![c]),
        histogram_error(seq![c], bin_size) is None,
        masses_spec(seq![c], bin_size) == seq![1u64],
{
}

} // verus!
