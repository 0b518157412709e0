//! Descriptive statistics over fixed-point samples.
use vstd::prelude::*;

verus! {

/// Thousandths per unit: a sample value `v` stands for `v / 1000`.
pub const SCALE: i64 = 1000;

/// The largest magnitude a sample value may have, in thousandths.
pub const MAGNITUDE: i64 = 1_000_000_000_000;

/// Every value of the sample lies within the representable range.
pub open spec fn valid_sample(s: Seq<i64>) -> bool {
    forall|i: int| 0 <= i < s.len() ==> -MAGNITUDE <= #[trigger] s[i] <= MAGNITUDE
}

/// `v` is the least element of `s`.
pub open spec fn is_min(s: Seq<i64>, v: i64) -> bool {
    &&& s.contains(v)
    &&& forall|i: int| 0 <= i < s.len() ==> v <= #[trigger] s[i]
}

/// `v` is the greatest element of `s`.
pub open spec fn is_max(s: Seq<i64>, v: i64) -> bool {
    &&& s.contains(v)
    &&& forall|i: int| 0 <= i < s.len() ==> #[trigger] s[i] <= v
}

/// The greatest value of a non-empty sample.
pub fn max(arr: &Vec<i64>) -> (r: i64)
    requires
        arr@.len() > 0,
    ensures
        is_max(arr@, r),
{
    let mut best: i64 = arr[0];
    let mut bi: usize = 0;
    let mut i: usize = 1;
    while i < arr.len()
        invariant
            1 <= i <= arr@.len(),
            bi < i,
            arr@[bi as int] == best,
            forall|j: int| 0 <= j < i ==> #[trigger] arr@[j] <= best,
        decreases arr@.len() - i,
    {
        if arr[i] > best {
            best = arr[i];
            bi = i;
        }
        i = i + 1;
    }
    best
}

/// The least value of a non-empty sample.
pub fn min(arr: &Vec<i64>) -> (r: i64)
    requires
        arr@.len() > 0,
    ensures
        is_min(arr@, r),
{
    let mut best: i64 = arr[0];
    let mut bi: usize = 0;
    let mut i: usize = 1;
    while i < arr.len()
        invariant
            1 <= i <= arr@.len(),
            bi < i,
            arr@[bi as int] == best,
            forall|j: int| 0 <= j < i ==> best <= #[trigger] arr@[j],
        decreases arr@.len() - i,
    {
        if arr[i] < best {
            best = arr[i];
            bi = i;
        }
        i = i + 1;
    }
    best
}

/// Sum of the values of `s`.
pub open spec fn sum_of(s: Seq<i64>) -> int
    decreases s.len(),
{
    if s.len() == 0 {
        0
    } else {
        sum_of(s.drop_last()) + s.last()
    }
}

/// The arithmetic mean of a sample, rounded down to a whole thousandth;
/// `None` for an empty sample.
pub fn mean(arr: &Vec<i64>) -> (r: Option<i64>)
    requires
        valid_sample(arr@),
    ensures
        r is None <==> arr@.len() == 0,
        r matches Some(m) ==> m == sum_of(arr@) / (arr@.len() as int),
{
    let n: usize = arr.len();
    if n == 0 {
        return None;
    }
    let mut acc: i128 = 0;
    let mut i: usize = 0;
    while i < n
        invariant
            n == arr@.len(),
            i <= n,
            valid_sample(arr@),
            acc == sum_of(arr@.subrange(0, i as int)),
            -1_000_000_000_000 * i <= acc <= 1_000_000_000_000 * i,
            i <= usize::MAX,
        decreases n - i,
    {
        assert(arr@.subrange(0, i as int + 1).drop_last() =~= arr@.subrange(0, i as int));
        assert(-MAGNITUDE <= arr@[i as int] <= MAGNITUDE);
        acc = acc + arr[i] as i128;
        i = i + 1;
    }
    assert(arr@.subrange(0, n as int) =~= arr@);
    let shifted: i128 = acc + (MAGNITUDE as i128) * (n as i128);
    let q: i128 = shifted / (n as i128);
    proof {
        let nn = n as int;
        vstd::arithmetic::div_mod::lemma_hoist_over_denominator(acc as int, MAGNITUDE as int, n as nat);
        vstd::arithmetic::div_mod::lemma_div_is_ordered(-MAGNITUDE * nn, acc as int, nn);
        vstd::arithmetic::div_mod::lemma_div_is_ordered(acc as int, MAGNITUDE * nn, nn);
        vstd::arithmetic::div_mod::lemma_hoist_over_denominator(0, -MAGNITUDE as int, n as nat);
        vstd::arithmetic::div_mod::lemma_div_by_multiple(MAGNITUDE as int, nn);
        assert(MAGNITUDE * nn == nn * MAGNITUDE);
    }
    Some((q - MAGNITUDE as i128) as i64)
}

} // verus!
