//! Marginal and joint count tables of two paired samples.
use vstd::prelude::*;
use crate::binning::{
    bin_counts, bin_of, count_in, counts_spec, lemma_bin_found, lemma_bin_of_iff,
    lemma_counts_cover, strictly_increasing, which_bin, total,
};
use crate::error::InfoError;
use crate::estimate::{bins_fit, fd_width, masses_spec, nonzero, lemma_fd_unique, sample_bins, sample_edges};
use crate::joint::{
    column, index_count, table_total, is_joint_table, joint_pmf, lemma_index_count_absent,
    lemma_joint_margins, lemma_pair_count_bounded, lemma_pair_count_self,
};
use crate::stats::valid_sample;
use crate::width::calc_bin_width_fd;

verus! {

/// The counts from which the mutual information of two paired samples is
/// estimated. With `n = total`, `p(a) = x_counts[a] / n`,
/// `p(b) = y_counts[b] / n` and `p(a, b) = joint[a][b] / n`, the mutual
/// information is the sum of `p(a, b) * log2(p(a, b) / (p(a) * p(b)))` over
/// the cells where all three are positive.
pub struct MiTable {
    /// Bin counts of the first sample.
    pub x_counts: Vec<u64>,
    /// Bin counts of the second sample.
    pub y_counts: Vec<u64>,
    /// Number of pairs in each cell `(a, b)` of bin indices.
    pub joint: Vec<Vec<u64>>,
    /// Number of pairs.
    pub total: u64,
}

/// The bin index of each value of `s` among the edges `e`.
pub open spec fn bin_indices(e: Seq<i64>, s: Seq<i64>) -> Seq<usize> {
    Seq::new(s.len(), |j: int| bin_of(e, s[j]) as usize)
}

/// Why the count tables of `x` and `y` cannot be made, if they cannot.
pub open spec fn mi_error(x: Seq<i64>, y: Seq<i64>) -> Option<InfoError> {
    if x.len() != y.len() {
        Some(InfoError::LengthMismatch)
    } else if x.len() == 0 {
        Some(InfoError::EmptySample)
    } else if fd_width(x) == 0 || fd_width(y) == 0 {
        Some(InfoError::DegenerateSample)
    } else if !bins_fit(x, fd_width(x)) || !bins_fit(y, fd_width(y)) {
        Some(InfoError::TooManyBins)
    } else {
        None
    }
}

/// The edges `e` strictly increase and every value of `s` lies above the
/// first and at most the last.
pub open spec fn encloses(e: Seq<i64>, s: Seq<i64>) -> bool {
    &&& strictly_increasing(e)
    &&& 2 <= e.len() <= usize::MAX
    &&& forall|j: int| 0 <= j < s.len() ==> e[0] < #[trigger] s[j] <= e.last()
}

/// `t` holds the count tables of `x` and `y`, each binned by its own
/// Freedman-Diaconis width.
pub open spec fn is_mi_table(x: Seq<i64>, y: Seq<i64>, t: MiTable) -> bool {
    let ex = sample_bins(x, fd_width(x));
    let ey = sample_bins(y, fd_width(y));
    &&& t.x_counts@ == counts_spec(x, ex)
    &&& t.y_counts@ == counts_spec(y, ey)
    &&& t.total == x.len()
    &&& y.len() == x.len()
    &&& total(t.x_counts@) == x.len()
    &&& total(t.y_counts@) == y.len()
    &&& encloses(ex, x)
    &&& encloses(ey, y)
    &&& is_joint_table(
        bin_indices(ex, x),
        bin_indices(ey, y),
        t.joint@.map_values(|row: Vec<u64>| row@),
    )
}

/// The bin indices of a sample among edges that enclose all its values.
fn indices_within(data: &Vec<i64>, edges: &Vec<i64>) -> (r: Vec<usize>)
    requires
        crate::binning::strictly_increasing(edges@),
        edges@.len() >= 2,
        forall|j: int| 0 <= j < data@.len() ==> edges@[0] < #[trigger] data@[j] <= edges@.last(),
    ensures
        r@ == bin_indices(edges@, data@),
        forall|j: int| 0 <= j < r@.len() ==> #[trigger] r@[j] < usize::MAX,
{
    proof {
        assert forall|j: int| 0 <= j < data@.len() implies bin_of(edges@, #[trigger] data@[j])
            >= 0 by {
            lemma_bin_found(edges@, data@[j], 0);
        }
    }
    let edge_count: usize = edges.len();
    match which_bin(data, edges) {
        Ok(idx) => {
            proof {
                assert forall|j: int| 0 <= j < idx@.len() implies #[trigger] idx@[j]
                    < usize::MAX by {
                    lemma_bin_found(edges@, data@[j], 0);
                    assert(idx@[j] == bin_of(edges@, data@[j]));
                    assert(edge_count == edges@.len());
                }
            }
            assert(idx@ =~= bin_indices(edges@, data@));
            idx
        },
        Err(_) => {
            proof {
                assert(false);
            }
            Vec::new()
        },
    }
}

/// The marginal and joint count tables of two paired samples, each binned by
/// its own Freedman-Diaconis width. Fails on samples of different lengths,
/// on empty samples, on a sample whose quartiles are equal, and where the
/// bins would be too many to index.
pub fn mutual_information_table(x: &Vec<i64>, y: &Vec<i64>) -> (r: Result<MiTable, InfoError>)
    requires
        valid_sample(x@),
        valid_sample(y@),
    ensures
        r is Err <==> mi_error(x@, y@) is Some,
        match r {
            Ok(t) => is_mi_table(x@, y@, t),
            Err(e) => mi_error(x@, y@) == Some(e),
        },
{
    if x.len() != y.len() {
        return Err(InfoError::LengthMismatch);
    }
    if x.len() == 0 {
        return Err(InfoError::EmptySample);
    }
    let wx = match calc_bin_width_fd(x) {
        Ok(w) => w,
        Err(e) => {
            return Err(e);
        },
    };
    let wy = match calc_bin_width_fd(y) {
        Ok(w) => w,
        Err(e) => {
            return Err(e);
        },
    };
    proof {
        lemma_fd_unique(x@, wx as int);
        lemma_fd_unique(y@, wy as int);
    }
    if wx == 0 || wy == 0 {
        return Err(InfoError::DegenerateSample);
    }
    let ex = match sample_edges(x, wx) {
        Some(e) => e,
        None => {
            return Err(InfoError::TooManyBins);
        },
    };
    let ey = match sample_edges(y, wy) {
        Some(e) => e,
        None => {
            return Err(InfoError::TooManyBins);
        },
    };
    assert(ex@.len() == ex.len() && ey@.len() == ey.len());
    let x_counts = bin_counts(x, &ex);
    let y_counts = bin_counts(y, &ey);
    let ix = indices_within(x, &ex);
    let iy = indices_within(y, &ey);
    let joint = joint_pmf(&ix, &iy);
    proof {
        lemma_counts_cover(x@, ex@);
        lemma_counts_cover(y@, ey@);
    }
    Ok(MiTable { x_counts, y_counts, joint, total: x.len() as u64 })
}

proof fn lemma_index_count(e: Seq<i64>, s: Seq<i64>, n: int, a: int)
    requires
        encloses(e, s),
        0 <= a < e.len() - 1,
        0 <= n <= s.len(),
    ensures
        index_count(bin_indices(e, s), n, a) == count_in(s.subrange(0, n), e[a], e[a + 1]),
    decreases n,
{
    if n > 0 {
        lemma_index_count(e, s, n - 1, a);
        assert(s.subrange(0, n).drop_last() =~= s.subrange(0, n - 1));
        lemma_bin_of_iff(e, s[n - 1], a);
        lemma_bin_found(e, s[n - 1], 0);
        assert(bin_indices(e, s)[n - 1] == bin_of(e, s[n - 1]));
        assert(s.subrange(0, n).last() == s[n - 1]);
    }
}

proof fn lemma_index_count_all(e: Seq<i64>, s: Seq<i64>, a: int)
    requires
        encloses(e, s),
        0 <= a < e.len() - 1,
    ensures
        index_count(bin_indices(e, s), s.len() as int, a) == count_in(s, e[a], e[a + 1]),
{
    lemma_index_count(e, s, s.len() as int, a);
    assert(s.subrange(0, s.len() as int) =~= s);
}

proof fn lemma_rows_within_bins(e: Seq<i64>, s: Seq<i64>, m: int)
    requires
        encloses(e, s),
        crate::joint::is_max_plus_one(bin_indices(e, s), m),
    ensures
        m <= e.len() - 1,
{
    let idx = bin_indices(e, s);
    let j = choose|j: int| 0 <= j < idx.len() && idx[j] == m - 1;
    lemma_bin_found(e, s[j], 0);
    assert(idx[j] == bin_of(e, s[j]));
}

/// The joint table of a sample with itself is diagonal, its diagonal holds
/// the sample's bin counts, and both marginals are those counts; so the
/// mutual information of a sample with itself is its entropy: its non-zero
/// diagonal is the sample's mass vector.
pub proof fn lemma_self_information(x: Seq<i64>, t: MiTable)
    requires
        is_mi_table(x, x, t),
    ensures
        t.x_counts@ == t.y_counts@,
        x.len() >= 2 ==> nonzero(t.x_counts@) == masses_spec(x, None),
        t.joint@.len() <= t.x_counts@.len(),
        forall|a: int, b: int|
            0 <= a < t.joint@.len() && 0 <= b < t.joint@[a]@.len() ==> #[trigger] t.joint@[a]@[b]
                == if a == b {
                t.x_counts@[a]
            } else {
                0
            },
{
    let e = sample_bins(x, fd_width(x));
    let idx = bin_indices(e, x);
    let rows = t.joint@.map_values(|row: Vec<u64>| row@);
    lemma_rows_within_bins(e, x, rows.len() as int);
    assert forall|a: int, b: int|
        0 <= a < t.joint@.len() && 0 <= b < t.joint@[a]@.len() implies #[trigger] t.joint@[a]@[b]
        == if a == b {
        t.x_counts@[a]
    } else {
        0
    } by {
        assert(rows[a] == t.joint@[a]@);
        assert(rows[a][b] == t.joint@[a]@[b]);
        lemma_pair_count_self(idx, x.len() as int, a, b);
        lemma_index_count_all(e, x, a);
    }
}

/// No joint cell holds more pairs than the bin of its row holds values of
/// the first sample, or the bin of its column values of the second; so the
/// mutual information is at most either entropy.
pub proof fn lemma_cells_within_marginals(x: Seq<i64>, y: Seq<i64>, t: MiTable)
    requires
        is_mi_table(x, y, t),
    ensures
        t.joint@.len() <= t.x_counts@.len(),
        forall|a: int|
            0 <= a < t.joint@.len() ==> #[trigger] t.joint@[a]@.len() <= t.y_counts@.len(),
        forall|a: int, b: int|
            0 <= a < t.joint@.len() && 0 <= b < t.joint@[a]@.len() ==> #[trigger] t.joint@[a]@[b]
                <= t.x_counts@[a] && t.joint@[a]@[b] <= t.y_counts@[b],
{
    let ex = sample_bins(x, fd_width(x));
    let ey = sample_bins(y, fd_width(y));
    let ix = bin_indices(ex, x);
    let iy = bin_indices(ey, y);
    let rows = t.joint@.map_values(|row: Vec<u64>| row@);
    lemma_rows_within_bins(ex, x, rows.len() as int);
    assert forall|a: int| 0 <= a < t.joint@.len() implies #[trigger] t.joint@[a]@.len()
        <= t.y_counts@.len() by {
        assert(rows[a] == t.joint@[a]@);
        lemma_rows_within_bins(ey, y, rows[a].len() as int);
    }
    assert forall|a: int, b: int|
        0 <= a < t.joint@.len() && 0 <= b < t.joint@[a]@.len() implies #[trigger] t.joint@[a]@[b]
        <= t.x_counts@[a] && t.joint@[a]@[b] <= t.y_counts@[b] by {
        assert(rows[a] == t.joint@[a]@);
        assert(rows[a][b] == t.joint@[a]@[b]);
        lemma_rows_within_bins(ey, y, rows[a].len() as int);
        lemma_pair_count_bounded(ix, iy, x.len() as int, a, b);
        lemma_index_count_all(ex, x, a);
        lemma_index_count_all(ey, y, b);
        crate::binning::lemma_count_bound(x, ex[a], ex[a + 1]);
        crate::binning::lemma_count_bound(y, ey[b], ey[b + 1]);

    }
}

/// The rows of the joint table add up to the first sample's bin counts, its
/// columns to the second's and the whole table to the number of pairs (so the
/// joint probabilities sum to one), and every bin beyond the table is empty: the
/// joint distribution has as marginals the two bin-count vectors, whose
/// non-zero entries are the two samples' mass vectors.
pub proof fn lemma_joint_marginals(x: Seq<i64>, y: Seq<i64>, t: MiTable)
    requires
        is_mi_table(x, y, t),
    ensures
        ({
            let rows = t.joint@.map_values(|row: Vec<u64>| row@);
            &&& rows.len() <= t.x_counts@.len()
            &&& table_total(rows) == t.total
            &&& (x.len() >= 2 ==> nonzero(t.x_counts@) == masses_spec(x, None))
            &&& (y.len() >= 2 ==> nonzero(t.y_counts@) == masses_spec(y, None))
            &&& forall|a: int| 0 <= a < rows.len() ==> total(#[trigger] rows[a]) == t.x_counts@[a]
            &&& forall|b: int|
                0 <= b < rows[0].len() ==> total(#[trigger] column(rows, b)) == t.y_counts@[b]
            &&& forall|a: int|
                rows.len() <= a < t.x_counts@.len() ==> #[trigger] t.x_counts@[a] == 0
            &&& forall|b: int|
                rows[0].len() <= b < t.y_counts@.len() ==> #[trigger] t.y_counts@[b] == 0
        }),
{
    let ex = sample_bins(x, fd_width(x));
    let ey = sample_bins(y, fd_width(y));
    let ix = bin_indices(ex, x);
    let iy = bin_indices(ey, y);
    let rows = t.joint@.map_values(|row: Vec<u64>| row@);
    lemma_rows_within_bins(ex, x, rows.len() as int);
    lemma_rows_within_bins(ey, y, rows[0].len() as int);
    lemma_joint_margins(ix, iy, rows);
    assert forall|a: int| 0 <= a < rows.len() implies total(#[trigger] rows[a])
        == t.x_counts@[a] by {
        lemma_index_count_all(ex, x, a);
        crate::binning::lemma_count_bound(x, ex[a], ex[a + 1]);
    }
    assert forall|b: int| 0 <= b < rows[0].len() implies total(#[trigger] column(rows, b))
        == t.y_counts@[b] by {
        lemma_index_count_all(ey, y, b);
        crate::binning::lemma_count_bound(y, ey[b], ey[b + 1]);
    }
    assert forall|a: int| rows.len() <= a < t.x_counts@.len() implies #[trigger] t.x_counts@[a]
        == 0 by {
        lemma_index_count_all(ex, x, a);
        lemma_index_count_absent(ix, x.len() as int, rows.len() as int, a);
    }
    assert forall|b: int| rows[0].len() <= b < t.y_counts@.len() implies #[trigger] t.y_counts@[b]
        == 0 by {
        lemma_index_count_all(ey, y, b);
        lemma_index_count_absent(iy, y.len() as int, rows[0].len() as int, b);
    }
}

} // verus!
