//! The Freedman-Diaconis bin width, computed exactly on fixed-point samples.
//!
//! The quartiles are the values at ranks `round(0.25 * (n - 1))` and
//! `round(0.75 * (n - 1))` of the sorted sample, halves rounded up, and the
//! width is `2 * iqr / cbrt(n)` rounded down to a whole thousandth.
use vstd::prelude::*;
use crate::error::InfoError;
use crate::stats::{MAGNITUDE, valid_sample};

verus! {

/// Number of values of `s` below `v`.
pub open spec fn count_lt(s: Seq<i64>, v: i64) -> nat
    decreases s.len(),
{
    if s.len() == 0 {
        0
    } else {
        count_lt(s.drop_last(), v) + if s.last() < v {
            1nat
        } else {
            0nat
        }
    }
}

/// Number of values of `s` at most `v`.
pub open spec fn count_le(s: Seq<i64>, v: i64) -> nat
    decreases s.len(),
{
    if s.len() == 0 {
        0
    } else {
        count_le(s.drop_last(), v) + if s.last() <= v {
            1nat
        } else {
            0nat
        }
    }
}

/// `v` is the value at position `k` of `s` once sorted.
pub open spec fn is_rank(s: Seq<i64>, k: int, v: i64) -> bool {
    &&& s.contains(v)
    &&& count_lt(s, v) <= k < count_le(s, v)
}

/// The value at position `k` of `s` once sorted.
pub open spec fn rank_value(s: Seq<i64>, k: int) -> i64 {
    choose|v: i64| is_rank(s, k, v)
}

/// Position of the lower quartile in a sorted sample of `n` values.
pub open spec fn lower_quartile_rank(n: int) -> int {
    (n + 1) / 4
}

/// Position of the upper quartile in a sorted sample of `n` values.
pub open spec fn upper_quartile_rank(n: int) -> int {
    (3 * n - 1) / 4
}

/// Twice the interquartile range of `s`.
pub open spec fn twice_iqr(s: Seq<i64>) -> int {
    2 * (rank_value(s, upper_quartile_rank(s.len() as int)) - rank_value(
        s,
        lower_quartile_rank(s.len() as int),
    ))
}

/// `w` is `t / cbrt(n)` rounded down.
pub open spec fn is_cube_root_quotient(t: int, n: int, w: int) -> bool {
    &&& w >= 0
    &&& w * w * w * n <= t * t * t
    &&& t * t * t < (w + 1) * (w + 1) * (w + 1) * n
}

/// `w` is the Freedman-Diaconis width of `s`: zero when the interquartile
/// range is, otherwise twice that range over the cube root of the sample size,
/// rounded down but never below one thousandth.
pub open spec fn is_fd_width(s: Seq<i64>, w: int) -> bool {
    let t = twice_iqr(s);
    let n = s.len() as int;
    if t == 0 {
        w == 0
    } else if is_cube_root_quotient(t, n, 0) {
        w == 1
    } else {
        is_cube_root_quotient(t, n, w)
    }
}

proof fn lemma_le_lt(s: Seq<i64>, a: i64, b: i64)
    requires
        a < b,
    ensures
        count_le(s, a) <= count_lt(s, b),
    decreases s.len(),
{
    if s.len() > 0 {
        lemma_le_lt(s.drop_last(), a, b);
    }
}

proof fn lemma_lt_le(s: Seq<i64>, v: i64)
    ensures
        count_lt(s, v) <= count_le(s, v) <= s.len(),
    decreases s.len(),
{
    if s.len() > 0 {
        lemma_lt_le(s.drop_last(), v);
    }
}

/// Two values of the same position are equal; a lower position holds a value
/// no greater.
proof fn lemma_rank_monotone(s: Seq<i64>, k1: int, v1: i64, k2: int, v2: i64)
    requires
        is_rank(s, k1, v1),
        is_rank(s, k2, v2),
        k1 <= k2,
    ensures
        v1 <= v2,
{
    if v2 < v1 {
        lemma_le_lt(s, v2, v1);
    }
}

proof fn lemma_rank_value(s: Seq<i64>, k: int, v: i64)
    requires
        is_rank(s, k, v),
    ensures
        rank_value(s, k) == v,
{
    let w = rank_value(s, k);
    lemma_rank_monotone(s, k, v, k, w);
    lemma_rank_monotone(s, k, w, k, v);
}

proof fn lemma_lt_of_min(s: Seq<i64>, v: i64)
    requires
        forall|j: int| 0 <= j < s.len() ==> v <= #[trigger] s[j],
    ensures
        count_lt(s, v) == 0,
    decreases s.len(),
{
    if s.len() > 0 {
        assert(s.last() == s[s.len() - 1]);
        lemma_lt_of_min(s.drop_last(), v);
    }
}

proof fn lemma_le_all(s: Seq<i64>, v: i64)
    requires
        forall|j: int| 0 <= j < s.len() ==> #[trigger] s[j] <= v,
    ensures
        count_le(s, v) == s.len(),
    decreases s.len(),
{
    if s.len() > 0 {
        assert(s.last() == s[s.len() - 1]);
        lemma_le_all(s.drop_last(), v);
    }
}

/// With no value strictly between `a` and `b`, the values below `b` are those
/// at most `a`.
proof fn lemma_gap(s: Seq<i64>, a: i64, b: i64)
    requires
        a < b,
        forall|j: int| 0 <= j < s.len() ==> !(a < #[trigger] s[j] && s[j] < b),
    ensures
        count_lt(s, b) == count_le(s, a),
    decreases s.len(),
{
    if s.len() > 0 {
        assert(s.last() == s[s.len() - 1]);
        lemma_gap(s.drop_last(), a, b);
    }
}

proof fn lemma_le_grows(s: Seq<i64>, a: i64, b: i64)
    requires
        a < b,
        s.contains(b),
    ensures
        count_le(s, a) < count_le(s, b),
    decreases s.len(),
{
    if s.len() > 0 {
        if s.last() == b {
            lemma_le_lt(s.drop_last(), a, b);
            lemma_lt_le(s.drop_last(), b);
        } else {
            let j = choose|j: int| 0 <= j < s.len() && s[j] == b;
            assert(s.drop_last()[j] == b);
            lemma_le_grows(s.drop_last(), a, b);
        }
    }
}

/// Number of values of `data` at most `v`.
fn count_at_most(data: &Vec<i64>, v: i64) -> (r: usize)
    ensures
        r == count_le(data@, v),
{
    let mut c: usize = 0;
    let mut j: usize = 0;
    while j < data.len()
        invariant
            j <= data@.len(),
            c <= j,
            c == count_le(data@.subrange(0, j as int), v),
        decreases data@.len() - j,
    {
        assert(data@.subrange(0, j as int + 1).drop_last() =~= data@.subrange(0, j as int));
        if data[j] <= v {
            c = c + 1;
        }
        j = j + 1;
    }
    assert(data@.subrange(0, data@.len() as int) =~= data@);
    c
}

/// The least value of `data` above `v`, given that one exists.
fn next_above(data: &Vec<i64>, v: i64) -> (r: i64)
    requires
        exists|j: int| 0 <= j < data@.len() && data@[j] > v,
    ensures
        r > v,
        data@.contains(r),
        forall|j: int| 0 <= j < data@.len() ==> !(v < #[trigger] data@[j] && data@[j] < r),
{
    let mut found: bool = false;
    let mut best: i64 = 0;
    let mut bi: usize = 0;
    let mut j: usize = 0;
    while j < data.len()
        invariant
            j <= data@.len(),
            found ==> bi < j && data@[bi as int] == best && best > v,
            !found ==> forall|t: int| 0 <= t < j ==> #[trigger] data@[t] <= v,
            forall|t: int| 0 <= t < j ==> !(v < #[trigger] data@[t] && data@[t] < best) || !found,
        decreases data@.len() - j,
    {
        let x = data[j];
        if x > v && (!found || x < best) {
            found = true;
            best = x;
            bi = j;
        }
        j = j + 1;
    }
    best
}

/// The value at position `k` of `data` once sorted.
fn order_stat(data: &Vec<i64>, k: usize) -> (r: i64)
    requires
        k < data@.len(),
    ensures
        is_rank(data@, k as int, r),
{
    let mut cur: i64 = crate::stats::min(data);
    proof {
        lemma_lt_of_min(data@, cur);
    }
    let mut le: usize = count_at_most(data, cur);
    while le <= k
        invariant
            k < data@.len(),
            data@.contains(cur),
            count_lt(data@, cur) <= k,
            le == count_le(data@, cur),
        decreases data@.len() - count_le(data@, cur),
    {
        proof {
            lemma_lt_le(data@, cur);
            if forall|j: int| 0 <= j < data@.len() ==> #[trigger] data@[j] <= cur {
                lemma_le_all(data@, cur);
            }
        }
        let nxt = next_above(data, cur);
        proof {
            lemma_gap(data@, cur, nxt);
            lemma_le_grows(data@, cur, nxt);
            lemma_lt_le(data@, nxt);
        }
        cur = nxt;
        le = count_at_most(data, cur);
    }
    cur
}

/// The largest `w` with `w * w * w <= q`, searched below `hi`.
fn cube_root_floor(q: u128, hi: u128) -> (w: u128)
    requires
        1 <= hi <= 4_000_000_000_001,
        q < hi * hi * hi,
    ensures
        w * w * w <= q < (w + 1) * (w + 1) * (w + 1),
{
    let mut lo: u128 = 0;
    let mut up: u128 = hi;
    while up - lo > 1
        invariant
            lo < up <= hi <= 4_000_000_000_001,
            lo * lo * lo <= q < up * up * up,
        decreases up - lo,
    {
        let mid: u128 = lo + (up - lo) / 2;
        assert(mid * mid <= 4_000_000_000_001 * 4_000_000_000_001 && mid * mid * mid
            <= 4_000_000_000_001 * 4_000_000_000_001 * 4_000_000_000_001) by (nonlinear_arith)
            requires
                mid <= 4_000_000_000_001,
        ;
        if mid * mid * mid <= q {
            lo = mid;
        } else {
            up = mid;
        }
    }
    lo
}

proof fn lemma_cube_quotient(x: int, n: int, q: int, w: int)
    requires
        n >= 1,
        x >= 0,
        q == x / n,
        w >= 0,
        w * w * w <= q < (w + 1) * (w + 1) * (w + 1),
    ensures
        w * w * w * n <= x < (w + 1) * (w + 1) * (w + 1) * n,
{
    vstd::arithmetic::div_mod::lemma_fundamental_div_mod(x, n);
    let c = w * w * w;
    let d = (w + 1) * (w + 1) * (w + 1);
    assert(c * n <= x) by (nonlinear_arith)
        requires
            c <= q,
            n * q + x % n == x,
            x % n >= 0,
            n >= 1,
    ;
    assert(x < d * n) by (nonlinear_arith)
        requires
            q + 1 <= d,
            n * q + x % n == x,
            x % n < n,
            n >= 1,
    ;
}

/// The Freedman-Diaconis bin width of a sample: twice its interquartile
/// range over the cube root of its size, rounded down to a whole thousandth
/// but kept at one thousandth or more while the range is positive. It is zero
/// exactly when the two quartiles are equal. Fails on an empty sample.
pub fn calc_bin_width_fd(data: &Vec<i64>) -> (r: Result<i64, InfoError>)
    requires
        valid_sample(data@),
    ensures
        r is Err <==> data@.len() == 0,
        match r {
            Ok(w) => {
                &&& is_fd_width(data@, w as int)
                &&& 0 <= w <= 4 * MAGNITUDE
                &&& twice_iqr(data@) >= 0
                &&& (w == 0 <==> twice_iqr(data@) == 0)
            },
            Err(e) => e == InfoError::EmptySample,
        },
{
    let n: usize = data.len();
    if n == 0 {
        return Err(InfoError::EmptySample);
    }
    let k1: usize = ((n as u128 + 1) / 4) as usize;
    let k3: usize = ((3 * (n as u128) - 1) / 4) as usize;
    let q1 = order_stat(data, k1);
    let q3 = order_stat(data, k3);
    proof {
        lemma_rank_monotone(data@, k1 as int, q1, k3 as int, q3);
        lemma_rank_value(data@, k1 as int, q1);
        lemma_rank_value(data@, k3 as int, q3);
        let j1 = choose|j: int| 0 <= j < data@.len() && data@[j] == q1;
        let j3 = choose|j: int| 0 <= j < data@.len() && data@[j] == q3;
        assert(-MAGNITUDE <= data@[j1] <= MAGNITUDE);
        assert(-MAGNITUDE <= data@[j3] <= MAGNITUDE);
    }
    let t: u128 = (2 * (q3 - q1)) as u128;
    if t == 0 {
        return Ok(0);
    }
    assert(t * t * t < (t + 1) * (t + 1) * (t + 1)) by (nonlinear_arith);
    assert(t * t <= 4_000_000_000_000 * 4_000_000_000_000 && t * t * t <= 4_000_000_000_000
        * 4_000_000_000_000 * 4_000_000_000_000) by (nonlinear_arith)
        requires
            t <= 4_000_000_000_000,
    ;
    let x: u128 = t * t * t;
    let q: u128 = x / (n as u128);
    assert(q <= x) by (nonlinear_arith)
        requires
            q == (x as int) / (n as int),
            n >= 1,
    ;
    let w = cube_root_floor(q, t + 1);
    proof {
        lemma_cube_quotient(x as int, n as int, q as int, w as int);
        if w > t {
            assert(t * t * t < w * w * w) by (nonlinear_arith)
                requires
                    w > t,
                    t >= 0,
            ;
        }
        if w != 0 {
            assert(!is_cube_root_quotient(t as int, n as int, 0)) by (nonlinear_arith)
                requires
                    w >= 1,
                    w * w * w * n <= t * t * t,
                    n >= 1,
            ;
        }
    }
    if w == 0 {
        Ok(1)
    } else {
        Ok(w as i64)
    }
}

} // verus!
