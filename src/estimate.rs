//! Entropy and mutual-information estimators, up to the logarithmic sums.
//!
//! An entropy estimate is made from a mass vector: the non-empty bin counts of
//! a histogram, each of which, over the sample size, is a probability. A
//! mutual-information estimate is made from the marginal and joint count
//! tables of two paired samples.
use vstd::prelude::*;
use crate::binning::{
    bin_counts, bins_spec, bin_total, calc_bins, counts_spec, lemma_counts_cover,
    strictly_increasing, total, width_ok, MAX_WIDTH,
};
use crate::error::InfoError;
use crate::stats::{is_max, is_min, max, min, valid_sample};
use crate::width::{calc_bin_width_fd, is_cube_root_quotient, is_fd_width, twice_iqr};

verus! {

/// The counts of `c` that are not zero, in order.
pub open spec fn nonzero(c: Seq<u64>) -> Seq<u64>
    decreases c.len(),
{
    if c.len() == 0 {
        Seq::empty()
    } else if c.last() > 0 {
        nonzero(c.drop_last()).push(c.last())
    } else {
        nonzero(c.drop_last())
    }
}

/// The least value of a sample.
pub open spec fn min_of(s: Seq<i64>) -> i64 {
    choose|v: i64| is_min(s, v)
}

/// The greatest value of a sample.
pub open spec fn max_of(s: Seq<i64>) -> i64 {
    choose|v: i64| is_max(s, v)
}

/// The Freedman-Diaconis width of a sample.
pub open spec fn fd_width(s: Seq<i64>) -> int {
    choose|w: int| is_fd_width(s, w)
}

/// The histogram edges of a sample for a bin width.
pub open spec fn sample_bins(s: Seq<i64>, width: int) -> Seq<i64> {
    bins_spec(min_of(s), max_of(s), width as i64)
}

/// The bin width a histogram of `s` uses: the one given, else the
/// Freedman-Diaconis width.
pub open spec fn chosen_width(s: Seq<i64>, bin_size: Option<i64>) -> int {
    match bin_size {
        Some(w) => w as int,
        None => fd_width(s),
    }
}

/// Every count is positive and at most `n`, and together they make `n`.
pub open spec fn is_mass_vector(m: Seq<u64>, n: int) -> bool {
    &&& forall|i: int| 0 <= i < m.len() ==> 0 < #[trigger] m[i] <= n
    &&& total(m) == n
}

pub(crate) proof fn lemma_min_unique(s: Seq<i64>, v: i64)
    requires
        is_min(s, v),
    ensures
        min_of(s) == v,
{
    let w = min_of(s);
    let i = choose|i: int| 0 <= i < s.len() && s[i] == v;
    let j = choose|j: int| 0 <= j < s.len() && s[j] == w;
}

pub(crate) proof fn lemma_max_unique(s: Seq<i64>, v: i64)
    requires
        is_max(s, v),
    ensures
        max_of(s) == v,
{
    let w = max_of(s);
    let i = choose|i: int| 0 <= i < s.len() && s[i] == v;
    let j = choose|j: int| 0 <= j < s.len() && s[j] == w;
}

proof fn lemma_cube_monotone(a: int, b: int)
    requires
        0 <= a <= b,
    ensures
        a * a * a <= b * b * b,
{
    assert(a * a <= b * b) by (nonlinear_arith)
        requires
            0 <= a <= b,
    ;
    assert(a * a * a <= b * b * b) by (nonlinear_arith)
        requires
            0 <= a <= b,
            a * a <= b * b,
    ;
}

pub(crate) proof fn lemma_fd_unique(s: Seq<i64>, w: int)
    requires
        is_fd_width(s, w),
        s.len() >= 1,
    ensures
        fd_width(s) == w,
{
    let v = fd_width(s);
    let t = twice_iqr(s);
    let n = s.len() as int;
    if t != 0 && !is_cube_root_quotient(t, n, 0) {
        if v < w {
            lemma_cube_monotone(v + 1, w);
            assert((v + 1) * (v + 1) * (v + 1) * n <= w * w * w * n) by (nonlinear_arith)
                requires
                    (v + 1) * (v + 1) * (v + 1) <= w * w * w,
                    n >= 1,
            ;
        } else if w < v {
            lemma_cube_monotone(w + 1, v);
            assert((w + 1) * (w + 1) * (w + 1) * n <= v * v * v * n) by (nonlinear_arith)
                requires
                    (w + 1) * (w + 1) * (w + 1) <= v * v * v,
                    n >= 1,
            ;
        }
    }
}

proof fn lemma_total_nonneg(c: Seq<u64>)
    ensures
        total(c) >= 0,
    decreases c.len(),
{
    if c.len() > 0 {
        lemma_total_nonneg(c.drop_last());
    }
}

proof fn lemma_nonzero_mass(c: Seq<u64>)
    ensures
        forall|i: int| 0 <= i < nonzero(c).len() ==> 0 < #[trigger] nonzero(c)[i] <= total(c),
        total(nonzero(c)) == total(c),
    decreases c.len(),
{
    if c.len() > 0 {
        let d = c.drop_last();
        lemma_nonzero_mass(d);
        lemma_total_nonneg(d);
        let nz = nonzero(d);
        if c.last() > 0 {
            assert(nonzero(c).drop_last() =~= nz);
            assert forall|i: int| 0 <= i < nonzero(c).len() implies 0 < #[trigger] nonzero(c)[i]
                <= total(c) by {
                if i < nz.len() {
                    assert(nonzero(c)[i] == nz[i]);
                }
            }
        }
    }
}

/// The non-zero counts of `counts`, in order.
pub fn nonzero_counts(counts: &Vec<u64>) -> (r: Vec<u64>)
    ensures
        r@ == nonzero(counts@),
{
    let mut kept: Vec<u64> = Vec::new();
    let mut i: usize = 0;
    while i < counts.len()
        invariant
            i <= counts@.len(),
            kept@ == nonzero(counts@.subrange(0, i as int)),
        decreases counts@.len() - i,
    {
        assert(counts@.subrange(0, i as int + 1).drop_last() =~= counts@.subrange(0, i as int));
        if counts[i] != 0 {
            kept.push(counts[i]);
        }
        i = i + 1;
    }
    assert(counts@.subrange(0, counts@.len() as int) =~= counts@);
    kept
}

/// The histogram edges of a non-empty sample for bins of width `w`, or `None`
/// when there would be too many bins to index. Every value lies above the
/// first edge and at most the last.
pub fn sample_edges(data: &Vec<i64>, w: i64) -> (r: Option<Vec<i64>>)
    requires
        data@.len() >= 1,
        valid_sample(data@),
        width_ok(w as int),
    ensures
        r is None <==> !bins_fit(data@, w as int),
        r matches Some(e) ==> {
            &&& e@ == sample_bins(data@, w as int)
            &&& strictly_increasing(e@)
            &&& e@.len() >= 2
            &&& forall|j: int| 0 <= j < data@.len() ==> e@[0] < #[trigger] data@[j] <= e@.last()
        },
{
    let lo = min(data);
    let hi = max(data);
    proof {
        lemma_min_unique(data@, lo);
        lemma_max_unique(data@, hi);
        let i = choose|i: int| 0 <= i < data@.len() && data@[i] == lo;
        let j = choose|j: int| 0 <= j < data@.len() && data@[j] == hi;
        assert(data@[i] <= data@[j]);
    }
    match calc_bins(lo, hi, w) {
        Ok(e) => Some(e),
        Err(_) => None,
    }
}

/// The histogram of `s` with bins of width `w` has few enough bins to index.
pub open spec fn bins_fit(s: Seq<i64>, w: int) -> bool {
    bin_total(min_of(s) as int, max_of(s) as int, w) < usize::MAX
}

/// Why the histogram of `s` with bins of width `w` cannot be made, if it cannot.
pub open spec fn histogram_error(s: Seq<i64>, bin_size: Option<i64>) -> Option<InfoError> {
    let w = chosen_width(s, bin_size);
    if s.len() == 0 {
        Some(InfoError::EmptySample)
    } else if s.len() == 1 {
        None
    } else if bin_size is Some && !width_ok(w) {
        Some(InfoError::InvalidWidth)
    } else if bin_size is None && w == 0 {
        Some(InfoError::DegenerateSample)
    } else if !bins_fit(s, w) {
        Some(InfoError::TooManyBins)
    } else {
        None
    }
}

/// The mass vector of a sample: a lone value puts all its mass in one bin;
/// otherwise the non-zero bin counts of its histogram.
pub open spec fn masses_spec(s: Seq<i64>, bin_size: Option<i64>) -> Seq<u64> {
    if s.len() == 1 {
        seq![1u64]
    } else {
        nonzero(counts_spec(s, sample_bins(s, chosen_width(s, bin_size))))
    }
}

/// The mass vector from which the entropy of a sample is estimated: the
/// non-empty bin counts of its histogram, with bins of the given width or
/// else of the Freedman-Diaconis width. Each count over the sample size is the
/// probability of its bin, so the entropy is `-sum(p * log2(p))` over them.
/// A sample of one value gives the single mass `[1]`, whose entropy is zero.
pub fn entropy_masses(data: &Vec<i64>, bin_size: Option<i64>) -> (r: Result<Vec<u64>, InfoError>)
    requires
        valid_sample(data@),
    ensures
        r is Err <==> histogram_error(data@, bin_size) is Some,
        match r {
            Ok(m) => m@ == masses_spec(data@, bin_size) && is_mass_vector(m@, data@.len() as int),
            Err(e) => histogram_error(data@, bin_size) == Some(e),
        },
{
    let n: usize = data.len();
    if n == 0 {
        return Err(InfoError::EmptySample);
    }
    if n == 1 {
        let mut single: Vec<u64> = Vec::new();
        single.push(1);
        assert(single@ =~= seq![1u64]);
        assert(total(single@.drop_last()) == 0);
        return Ok(single);
    }
    let w: i64 = match bin_size {
        Some(given) => {
            if given <= 0 || given > MAX_WIDTH {
                return Err(InfoError::InvalidWidth);
            }
            given
        },
        None => {
            let fd = match calc_bin_width_fd(data) {
                Ok(fd) => fd,
                Err(e) => {
                    return Err(e);
                },
            };
            proof {
                lemma_fd_unique(data@, fd as int);
            }
            if fd == 0 {
                return Err(InfoError::DegenerateSample);
            }
            fd
        },
    };
    let edges = match sample_edges(data, w) {
        Some(e) => e,
        None => {
            return Err(InfoError::TooManyBins);
        },
    };
    let counts = bin_counts(data, &edges);
    proof {
        lemma_counts_cover(data@, edges@);
        lemma_nonzero_mass(counts@);
    }
    let masses = nonzero_counts(&counts);
    Ok(masses)
}

} // verus!
