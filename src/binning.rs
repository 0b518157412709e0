//! Histogram edges, per-bin counts and bin membership.
//!
//! A bin `i` of an edge sequence `e` is the interval `(e[i], e[i + 1]]`.
use vstd::prelude::*;
use crate::error::InfoError;
use crate::stats::MAGNITUDE;

verus! {

/// How far the first edge sits below the sample minimum, so that the minimum
/// falls inside the first bin.
pub const NUDGE: i64 = 1;

/// The widest bin width accepted: the largest for which every edge stays
/// within `i64`, given sample values of magnitude at most `MAGNITUDE`.
pub const MAX_WIDTH: i64 = 9_223_371_036_854_775_807;

/// Number of bins that cover `[min, max]` with bins of the given width: the
/// ceiling of the span over the width, and at least one.
pub open spec fn bin_total(min: int, max: int, width: int) -> int {
    if max - min <= 0 {
        1
    } else {
        (max - min - 1) / width + 1
    }
}

/// Edge `i` of the bins starting at `min`.
pub open spec fn edge_at(min: int, width: int, i: int) -> int {
    if i == 0 {
        min - NUDGE
    } else {
        min + width * i
    }
}

/// The edges that `calc_bins` produces.
pub open spec fn bins_spec(min: i64, max: i64, width: i64) -> Seq<i64> {
    Seq::new(
        (bin_total(min as int, max as int, width as int) + 1) as nat,
        |i: int| edge_at(min as int, width as int, i) as i64,
    )
}

/// A bin width that a histogram can use.
pub open spec fn width_ok(w: int) -> bool {
    0 < w <= MAX_WIDTH
}

/// Why `calc_bins` cannot make the edges, if it cannot: the width is not
/// positive or too wide for `i64` edges, or the bins would be too many to
/// index.
pub open spec fn bins_error(min: i64, max: i64, width: i64) -> Option<InfoError> {
    if !width_ok(width as int) {
        Some(InfoError::InvalidWidth)
    } else if bin_total(min as int, max as int, width as int) >= usize::MAX {
        Some(InfoError::TooManyBins)
    } else {
        None
    }
}

/// Each element is smaller than every later one.
pub open spec fn strictly_increasing(e: Seq<i64>) -> bool {
    forall|i: int, j: int| 0 <= i < j < e.len() ==> e[i] < e[j]
}

/// Number of values `v` of `s` with `lo < v <= hi`.
pub open spec fn count_in(s: Seq<i64>, lo: i64, hi: i64) -> nat
    decreases s.len(),
{
    if s.len() == 0 {
        0
    } else {
        count_in(s.drop_last(), lo, hi) + if lo < s.last() && s.last() <= hi {
            1nat
        } else {
            0nat
        }
    }
}

/// The count of each bin of `e`.
pub open spec fn counts_spec(s: Seq<i64>, e: Seq<i64>) -> Seq<u64> {
    Seq::new((e.len() - 1) as nat, |i: int| count_in(s, e[i], e[i + 1]) as u64)
}

/// Sum of a sequence of counts.
pub open spec fn total(c: Seq<u64>) -> int
    decreases c.len(),
{
    if c.len() == 0 {
        0
    } else {
        total(c.drop_last()) + c.last()
    }
}

/// The first bin, from index `i` on, that holds `v`; `-1` when none does.
pub open spec fn first_bin_from(e: Seq<i64>, v: i64, i: int) -> int
    decreases e.len() - i,
{
    if i < 0 || i + 1 >= e.len() {
        -1
    } else if e[i] < v && v <= e[i + 1] {
        i
    } else {
        first_bin_from(e, v, i + 1)
    }
}

/// The first bin of `e` that holds `v`; `-1` when none does.
pub open spec fn bin_of(e: Seq<i64>, v: i64) -> int {
    first_bin_from(e, v, 0)
}

proof fn lemma_ceil_covers(d: int, w: int)
    requires
        d > 0,
        w > 0,
    ensures
        (d - 1) / w + 1 >= 1,
        w * ((d - 1) / w + 1) >= d,
        w * ((d - 1) / w + 1) < d + w,
{
    vstd::arithmetic::div_mod::lemma_fundamental_div_mod(d - 1, w);
    let q = (d - 1) / w;
    assert(q >= 0 && w * (q + 1) >= d && w * (q + 1) < d + w) by (nonlinear_arith)
        requires
            w * q + (d - 1) % w == d - 1,
            0 <= (d - 1) % w < w,
            d > 0,
            w > 0,
    ;
}

proof fn lemma_bin_total_bounds(min: i64, max: i64, width: i64)
    requires
        min <= max,
        width > 0,
    ensures
        bin_total(min as int, max as int, width as int) >= 1,
        width * bin_total(min as int, max as int, width as int) >= max - min,
        width * (bin_total(min as int, max as int, width as int) - 1) < max - min + 1,
{
    let k = bin_total(min as int, max as int, width as int);
    if max - min > 0 {
        lemma_ceil_covers(max - min, width as int);
    }
    assert(width * (k - 1) == width * k - width) by (nonlinear_arith);
}

/// Edges of bins of the given width over `[min, max]`: the first edge lies
/// `NUDGE` below `min`, edge `i >= 1` is `min + i * width`, and the last edge
/// is the first one at or above `max`. The edges strictly increase. Fails with
/// `InvalidWidth` on a width that is not positive or exceeds `MAX_WIDTH`, and
/// with `TooManyBins` where the bins would be too many to index.
pub fn calc_bins(min: i64, max: i64, bin_size: i64) -> (r: Result<Vec<i64>, InfoError>)
    requires
        -MAGNITUDE <= min <= max <= MAGNITUDE,
    ensures
        r is Err <==> bins_error(min, max, bin_size) is Some,
        match r {
            Ok(e) => {
                &&& e@ == bins_spec(min, max, bin_size)
                &&& strictly_increasing(e@)
                &&& e@.len() >= 2
                &&& e@[0] < min
                &&& e@.last() >= max
            },
            Err(err) => bins_error(min, max, bin_size) == Some(err),
        },
{
    if bin_size <= 0 || bin_size > MAX_WIDTH {
        return Err(InfoError::InvalidWidth);
    }
    proof {
        lemma_bin_total_bounds(min, max, bin_size);
    }
    let ghost k = bin_total(min as int, max as int, bin_size as int);
    let diff: i64 = max - min;
    let count: i64 = if diff == 0 {
        1
    } else {
        (diff - 1) / bin_size + 1
    };
    assert(count == k);
    if count as u64 >= usize::MAX as u64 {
        return Err(InfoError::TooManyBins);
    }
    assert(bin_size * k < max - min + bin_size + 1) by (nonlinear_arith)
        requires
            bin_size * (k - 1) < max - min + 1,
            bin_size >= 1,
            k >= 1,
    ;
    let n: usize = count as usize;
    let mut bins: Vec<i64> = Vec::new();
    bins.push(min - NUDGE);
    let mut index: usize = 1;
    while index <= n
        invariant
            1 <= index <= n + 1,
            n == k,
            k >= 1,
            k < usize::MAX,
            -MAGNITUDE <= min <= max <= MAGNITUDE,
            width_ok(bin_size as int),
            bin_size * k < max - min + bin_size + 1,
            bins@.len() == index,
            forall|i: int| 0 <= i < index ==> bins@[i] == edge_at(min as int, bin_size as int, i),
        decreases n + 1 - index,
    {
        assert(bin_size * index <= bin_size * k) by (nonlinear_arith)
            requires
                index <= k,
                bin_size > 0,
        ;
        let edge: i128 = min as i128 + (bin_size as i128) * (index as i128);
        bins.push(edge as i64);
        index = index + 1;
    }
    let ghost e = bins@;
    assert(e =~= bins_spec(min, max, bin_size));
    assert forall|i: int, j: int| 0 <= i < j < e.len() implies e[i] < e[j] by {
        if i > 0 {
            assert(bin_size * i < bin_size * j) by (nonlinear_arith)
                requires
                    i < j,
                    bin_size > 0,
            ;
        } else {
            assert(bin_size * j > 0) by (nonlinear_arith)
                requires
                    j > 0,
                    bin_size > 0,
            ;
        }
    }
    Ok(bins)
}

/// Number of values of `data` inside the bin `(lo, hi]`.
fn count_between(data: &Vec<i64>, lo: i64, hi: i64) -> (r: u64)
    ensures
        r == count_in(data@, lo, hi),
{
    let mut c: u64 = 0;
    let mut j: usize = 0;
    while j < data.len()
        invariant
            j <= data@.len(),
            c <= j,
            c == count_in(data@.subrange(0, j as int), lo, hi),
        decreases data@.len() - j,
    {
        assert(data@.subrange(0, j as int + 1).drop_last() =~= data@.subrange(0, j as int));
        let x = data[j];
        if lo < x && x <= hi {
            c = c + 1;
        }
        j = j + 1;
    }
    assert(data@.subrange(0, data@.len() as int) =~= data@);
    c
}

/// For each bin `(bins[i], bins[i + 1]]`, the number of values of `data` in it.
pub fn bin_counts(data: &Vec<i64>, bins: &Vec<i64>) -> (r: Vec<u64>)
    requires
        bins@.len() >= 1,
    ensures
        r@ == counts_spec(data@, bins@),
{
    let mut counts: Vec<u64> = Vec::new();
    let mut i: usize = 0;
    while i < bins.len() - 1
        invariant
            i + 1 <= bins@.len(),
            counts@.len() == i,
            forall|t: int| 0 <= t < i ==> counts@[t] == count_in(data@, bins@[t], bins@[t + 1]) as u64,
        decreases bins@.len() - i,
    {
        let c = count_between(data, bins[i], bins[i + 1]);
        counts.push(c);
        i = i + 1;
    }
    assert(counts@ =~= counts_spec(data@, bins@));
    counts
}

/// The first bin of `bins` that holds `x`, if any.
fn find_bin(x: i64, bins: &Vec<i64>) -> (r: Option<usize>)
    ensures
        match r {
            Some(i) => i == bin_of(bins@, x),
            None => bin_of(bins@, x) == -1,
        },
{
    if bins.len() == 0 {
        return None;
    }
    let mut i: usize = 0;
    while i < bins.len() - 1
        invariant
            bins@.len() >= 1,
            bin_of(bins@, x) == first_bin_from(bins@, x, i as int),
        decreases bins@.len() - i,
    {
        if bins[i] < x && x <= bins[i + 1] {
            return Some(i);
        }
        i = i + 1;
    }
    None
}

/// The bin index of each value of `data`, by the same `(lo, hi]` rule as
/// `bin_counts`. Fails with `OutOfRange` exactly when some value lies in no bin.
pub fn which_bin(data: &Vec<i64>, bins: &Vec<i64>) -> (r: Result<Vec<usize>, InfoError>)
    ensures
        r is Ok <==> forall|j: int| 0 <= j < data@.len() ==> bin_of(bins@, #[trigger] data@[j]) >= 0,
        match r {
            Ok(idx) => idx@.len() == data@.len() && forall|j: int|
                0 <= j < data@.len() ==> idx@[j] == bin_of(bins@, #[trigger] data@[j]),
            Err(e) => e == InfoError::OutOfRange,
        },
{
    let mut idx: Vec<usize> = Vec::new();
    let mut j: usize = 0;
    while j < data.len()
        invariant
            j <= data@.len(),
            idx@.len() == j,
            forall|t: int| 0 <= t < j ==> idx@[t] == bin_of(bins@, #[trigger] data@[t]),
        decreases data@.len() - j,
    {
        match find_bin(data[j], bins) {
            Some(b) => {
                idx.push(b);
            },
            None => {
                return Err(InfoError::OutOfRange);
            },
        }
        j = j + 1;
    }
    Ok(idx)
}

proof fn lemma_count_empty_range(s: Seq<i64>, a: i64)
    ensures
        count_in(s, a, a) == 0,
    decreases s.len(),
{
    if s.len() > 0 {
        lemma_count_empty_range(s.drop_last(), a);
    }
}

pub(crate) proof fn lemma_count_bound(s: Seq<i64>, a: i64, b: i64)
    ensures
        count_in(s, a, b) <= s.len(),
    decreases s.len(),
{
    if s.len() > 0 {
        lemma_count_bound(s.drop_last(), a, b);
    }
}

proof fn lemma_count_split(s: Seq<i64>, a: i64, b: i64, c: i64)
    requires
        a <= b <= c,
    ensures
        count_in(s, a, c) == count_in(s, a, b) + count_in(s, b, c),
    decreases s.len(),
{
    if s.len() > 0 {
        lemma_count_split(s.drop_last(), a, b, c);
    }
}

proof fn lemma_count_all(s: Seq<i64>, a: i64, c: i64)
    requires
        forall|j: int| 0 <= j < s.len() ==> a < #[trigger] s[j] <= c,
    ensures
        count_in(s, a, c) == s.len(),
    decreases s.len(),
{
    if s.len() > 0 {
        assert(s.last() == s[s.len() - 1]);
        lemma_count_all(s.drop_last(), a, c);
    }
}

/// The bin counts add up to the number of values between the first and the
/// last edge: those above the first edge and at most the last.
pub proof fn lemma_counts_sum(s: Seq<i64>, e: Seq<i64>)
    requires
        e.len() >= 1,
        strictly_increasing(e),
        s.len() <= u64::MAX,
    ensures
        total(counts_spec(s, e)) == count_in(s, e[0], e.last()),
    decreases e.len(),
{
    lemma_count_bound(s, e[e.len() - 2], e.last());
    if e.len() == 1 {
        lemma_count_empty_range(s, e[0]);
        assert(counts_spec(s, e) =~= Seq::<u64>::empty());
    } else {
        let f = e.drop_last();
        lemma_counts_sum(s, f);
        assert(counts_spec(s, e).drop_last() =~= counts_spec(s, f));
        lemma_count_split(s, e[0], f.last(), e.last());
    }
}

/// When every value lies above the first edge and at most the last, the bin
/// counts add up to the number of values.
pub proof fn lemma_counts_cover(s: Seq<i64>, e: Seq<i64>)
    requires
        e.len() >= 1,
        strictly_increasing(e),
        s.len() <= u64::MAX,
        forall|j: int| 0 <= j < s.len() ==> e[0] < #[trigger] s[j] <= e.last(),
    ensures
        total(counts_spec(s, e)) == s.len(),
{
    lemma_counts_sum(s, e);
    lemma_count_all(s, e[0], e.last());
}

/// A value above the first edge and at most the last lies in a bin, found at
/// or after any bin whose lower edge it exceeds.
pub proof fn lemma_bin_found(e: Seq<i64>, v: i64, i: int)
    requires
        strictly_increasing(e),
        0 <= i < e.len() - 1,
        e[i] < v <= e.last(),
    ensures
        i <= first_bin_from(e, v, i) < e.len() - 1,
        e[first_bin_from(e, v, i)] < v <= e[first_bin_from(e, v, i) + 1],
    decreases e.len() - i,
{
    if !(v <= e[i + 1]) {
        lemma_bin_found(e, v, i + 1);
    }
}

/// Between the first and the last edge, a value's bin is the one whose edges
/// enclose it.
pub proof fn lemma_bin_of_iff(e: Seq<i64>, v: i64, a: int)
    requires
        strictly_increasing(e),
        0 <= a < e.len() - 1,
        e[0] < v <= e.last(),
    ensures
        bin_of(e, v) == a <==> e[a] < v <= e[a + 1],
{
    lemma_bin_found(e, v, 0);
    let r = bin_of(e, v);
    if e[a] < v <= e[a + 1] && r != a {
        if r < a {
            assert(e[r + 1] <= e[a]);
        } else {
            assert(e[a + 1] <= e[r]);
        }
    }
}

} // verus!
