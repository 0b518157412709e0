//! Joint counts of paired bin indices.
use vstd::prelude::*;
use crate::binning::total;

verus! {

/// Number of positions `j < n` with `x[j] == a` and `y[j] == b`.
pub open spec fn pair_count(x: Seq<usize>, y: Seq<usize>, n: int, a: int, b: int) -> nat
    decreases n,
{
    if n <= 0 {
        0
    } else {
        pair_count(x, y, n - 1, a, b) + if x[n - 1] == a && y[n - 1] == b {
            1nat
        } else {
            0nat
        }
    }
}

/// `m` is one more than the greatest element of `x`.
pub open spec fn is_max_plus_one(x: Seq<usize>, m: int) -> bool {
    &&& exists|j: int| 0 <= j < x.len() && x[j] == m - 1
    &&& m >= 1
    &&& forall|j: int| 0 <= j < x.len() ==> #[trigger] x[j] < m
}

/// `t` is the dense joint count table of the index pairs `(x[j], y[j])`: one
/// row per index up to the greatest of `x`, one column per index up to the
/// greatest of `y`, and in each cell the number of pairs that fall on it.
pub open spec fn is_joint_table(x: Seq<usize>, y: Seq<usize>, t: Seq<Seq<u64>>) -> bool {
    &&& is_max_plus_one(x, t.len() as int)
    &&& forall|a: int|
        0 <= a < t.len() ==> is_max_plus_one(y, #[trigger] t[a].len() as int)
    &&& forall|a: int, b: int|
        0 <= a < t.len() && 0 <= b < t[a].len() ==> #[trigger] t[a][b] == pair_count(
            x,
            y,
            x.len() as int,
            a,
            b,
        )
}

/// The greatest element of a non-empty index sequence.
fn max_index(x: &Vec<usize>) -> (r: usize)
    requires
        x@.len() >= 1,
    ensures
        is_max_plus_one(x@, r + 1),
{
    let mut best: usize = x[0];
    let mut bi: usize = 0;
    let mut j: usize = 1;
    while j < x.len()
        invariant
            1 <= j <= x@.len(),
            bi < j,
            x@[bi as int] == best,
            forall|t: int| 0 <= t < j ==> #[trigger] x@[t] <= best,
        decreases x@.len() - j,
    {
        if x[j] > best {
            best = x[j];
            bi = j;
        }
        j = j + 1;
    }
    assert(x@[bi as int] == best);
    best
}

/// One row of the joint table: for each column index `b <= y_max`, the number
/// of positions where `x` holds `a` and `y` holds `b`.
fn joint_row(x: &Vec<usize>, y: &Vec<usize>, a: usize, y_max: usize) -> (r: Vec<u64>)
    requires
        x@.len() == y@.len(),
        y_max < usize::MAX,
        forall|j: int| 0 <= j < y@.len() ==> #[trigger] y@[j] <= y_max,
    ensures
        r@.len() == y_max + 1,
        forall|b: int| 0 <= b <= y_max ==> #[trigger] r@[b] == pair_count(x@, y@, x@.len() as int, a as int, b),
{
    let mut row: Vec<u64> = Vec::new();
    let mut b: usize = 0;
    while b <= y_max
        invariant
            b <= y_max + 1,
            y_max < usize::MAX,
            row@.len() == b,
            forall|t: int| 0 <= t < b ==> #[trigger] row@[t] == 0,
        decreases y_max + 1 - b,
    {
        row.push(0);
        b = b + 1;
    }
    let mut j: usize = 0;
    while j < x.len()
        invariant
            j <= x@.len(),
            x@.len() == y@.len(),
            forall|t: int| 0 <= t < y@.len() ==> #[trigger] y@[t] <= y_max,
            row@.len() == y_max + 1,
            forall|t: int| 0 <= t <= y_max ==> #[trigger] row@[t] <= j,
            forall|t: int| 0 <= t <= y_max ==> #[trigger] row@[t] == pair_count(x@, y@, j as int, a as int, t),
        decreases x@.len() - j,
    {
        if x[j] == a {
            let c = y[j];
            let v = row[c] + 1;
            row.set(c, v);
        }
        j = j + 1;
    }
    row
}

/// The joint count table of paired bin indices, with one row per index up to
/// the greatest of `x` and one column per index up to the greatest of `y`.
pub fn joint_pmf(x: &Vec<usize>, y: &Vec<usize>) -> (r: Vec<Vec<u64>>)
    requires
        x@.len() == y@.len(),
        x@.len() >= 1,
        forall|j: int| 0 <= j < x@.len() ==> #[trigger] x@[j] < usize::MAX,
        forall|j: int| 0 <= j < y@.len() ==> #[trigger] y@[j] < usize::MAX,
    ensures
        is_joint_table(x@, y@, r@.map_values(|row: Vec<u64>| row@)),
{
    let x_max = max_index(x);
    let y_max = max_index(y);
    let mut table: Vec<Vec<u64>> = Vec::new();
    let mut a: usize = 0;
    while a <= x_max
        invariant
            a <= x_max + 1,
            x_max < usize::MAX,
            x@.len() == y@.len(),
            is_max_plus_one(y@, y_max + 1),
            y_max < usize::MAX,
            table@.len() == a,
            forall|t: int| 0 <= t < a ==> #[trigger] table@[t]@.len() == y_max + 1,
            forall|t: int, b: int|
                0 <= t < a && 0 <= b <= y_max ==> #[trigger] table@[t]@[b] == pair_count(
                    x@,
                    y@,
                    x@.len() as int,
                    t,
                    b,
                ),
        decreases x_max + 1 - a,
    {
        let row = joint_row(x, y, a, y_max);
        table.push(row);
        a = a + 1;
    }
    table
}

/// Number of positions `j < n` with `x[j] == a`.
pub open spec fn index_count(x: Seq<usize>, n: int, a: int) -> nat
    decreases n,
{
    if n <= 0 {
        0
    } else {
        index_count(x, n - 1, a) + if x[n - 1] == a {
            1nat
        } else {
            0nat
        }
    }
}

/// A cell never holds more pairs than its row or its column index has
/// positions.
pub proof fn lemma_pair_count_bounded(x: Seq<usize>, y: Seq<usize>, n: int, a: int, b: int)
    ensures
        pair_count(x, y, n, a, b) <= index_count(x, n, a),
        pair_count(x, y, n, a, b) <= index_count(y, n, b),
    decreases n,
{
    if n > 0 {
        lemma_pair_count_bounded(x, y, n - 1, a, b);
    }
}

/// Pairing a sequence with itself puts every pair on the diagonal.
pub proof fn lemma_pair_count_self(x: Seq<usize>, n: int, a: int, b: int)
    ensures
        pair_count(x, x, n, a, b) == if a == b {
            index_count(x, n, a)
        } else {
            0
        },
    decreases n,
{
    if n > 0 {
        lemma_pair_count_self(x, n - 1, a, b);
    }
}

/// Sum of `pair_count(x, y, n, a, b)` over the columns `b < c`.
pub open spec fn pair_row_sum(x: Seq<usize>, y: Seq<usize>, n: int, a: int, c: int) -> int
    decreases c,
{
    if c <= 0 {
        0
    } else {
        pair_row_sum(x, y, n, a, c - 1) + pair_count(x, y, n, a, c - 1)
    }
}

proof fn lemma_row_sum_step(x: Seq<usize>, y: Seq<usize>, n: int, a: int, c: int)
    requires
        n > 0,
        c >= 0,
    ensures
        pair_row_sum(x, y, n, a, c) == pair_row_sum(x, y, n - 1, a, c) + if x[n - 1] == a
            && y[n - 1] < c {
            1int
        } else {
            0int
        },
    decreases c,
{
    if c > 0 {
        lemma_row_sum_step(x, y, n, a, c - 1);
    }
}

proof fn lemma_row_sum_all(x: Seq<usize>, y: Seq<usize>, n: int, a: int, c: int)
    requires
        0 <= n <= y.len(),
        c >= 0,
        forall|j: int| 0 <= j < y.len() ==> #[trigger] y[j] < c,
    ensures
        pair_row_sum(x, y, n, a, c) == index_count(x, n, a),
    decreases n,
{
    if n > 0 {
        lemma_row_sum_all(x, y, n - 1, a, c);
        lemma_row_sum_step(x, y, n, a, c);
    } else {
        lemma_row_sum_zero(x, y, a, c);
    }
}

proof fn lemma_row_sum_zero(x: Seq<usize>, y: Seq<usize>, a: int, c: int)
    ensures
        pair_row_sum(x, y, 0, a, c) == 0,
    decreases c,
{
    if c > 0 {
        lemma_row_sum_zero(x, y, a, c - 1);
    }
}

proof fn lemma_total_of_row(x: Seq<usize>, y: Seq<usize>, a: int, r: Seq<u64>)
    requires
        forall|b: int| 0 <= b < r.len() ==> #[trigger] r[b] == pair_count(x, y, x.len() as int, a, b),
    ensures
        total(r) == pair_row_sum(x, y, x.len() as int, a, r.len() as int),
    decreases r.len(),
{
    if r.len() > 0 {
        lemma_total_of_row(x, y, a, r.drop_last());
    }
}

proof fn lemma_pair_count_swap(x: Seq<usize>, y: Seq<usize>, n: int, a: int, b: int)
    ensures
        pair_count(x, y, n, a, b) == pair_count(y, x, n, b, a),
    decreases n,
{
    if n > 0 {
        lemma_pair_count_swap(x, y, n - 1, a, b);
    }
}

/// An index that no position holds has no positions.
pub proof fn lemma_index_count_absent(x: Seq<usize>, n: int, m: int, a: int)
    requires
        0 <= n <= x.len(),
        m <= a,
        forall|j: int| 0 <= j < x.len() ==> #[trigger] x[j] < m,
    ensures
        index_count(x, n, a) == 0,
    decreases n,
{
    if n > 0 {
        lemma_index_count_absent(x, n - 1, m, a);
    }
}

/// Sum of the row totals of a table.
pub open spec fn table_total(t: Seq<Seq<u64>>) -> int
    decreases t.len(),
{
    if t.len() == 0 {
        0
    } else {
        table_total(t.drop_last()) + total(t.last())
    }
}

/// Sum of `index_count(x, n, a)` over the indices `a < m`.
pub open spec fn index_sum(x: Seq<usize>, n: int, m: int) -> int
    decreases m,
{
    if m <= 0 {
        0
    } else {
        index_sum(x, n, m - 1) + index_count(x, n, m - 1)
    }
}

proof fn lemma_index_sum_step(x: Seq<usize>, n: int, m: int)
    requires
        n > 0,
        m >= 0,
    ensures
        index_sum(x, n, m) == index_sum(x, n - 1, m) + if x[n - 1] < m {
            1int
        } else {
            0int
        },
    decreases m,
{
    if m > 0 {
        lemma_index_sum_step(x, n, m - 1);
    }
}

proof fn lemma_index_sum_zero(x: Seq<usize>, m: int)
    ensures
        index_sum(x, 0, m) == 0,
    decreases m,
{
    if m > 0 {
        lemma_index_sum_zero(x, m - 1);
    }
}

proof fn lemma_index_sum_all(x: Seq<usize>, n: int, m: int)
    requires
        0 <= n <= x.len(),
        m >= 0,
        forall|j: int| 0 <= j < x.len() ==> #[trigger] x[j] < m,
    ensures
        index_sum(x, n, m) == n,
    decreases n,
{
    if n > 0 {
        lemma_index_sum_all(x, n - 1, m);
        lemma_index_sum_step(x, n, m);
    } else {
        lemma_index_sum_zero(x, m);
    }
}

proof fn lemma_table_total_rows(t: Seq<Seq<u64>>, x: Seq<usize>, n: int)
    requires
        forall|a: int| 0 <= a < t.len() ==> total(#[trigger] t[a]) == index_count(x, n, a),
    ensures
        table_total(t) == index_sum(x, n, t.len() as int),
    decreases t.len(),
{
    if t.len() > 0 {
        let d = t.drop_last();
        assert forall|a: int| 0 <= a < d.len() implies total(#[trigger] d[a]) == index_count(
            x,
            n,
            a,
        ) by {
            assert(d[a] == t[a]);
        }
        lemma_table_total_rows(d, x, n);
        assert(total(t[t.len() - 1]) == index_count(x, n, t.len() - 1));
    }
}

/// Column `b` of a table of rows.
pub open spec fn column(t: Seq<Seq<u64>>, b: int) -> Seq<u64> {
    Seq::new(t.len(), |a: int| t[a][b])
}

/// Each row of a joint table adds up to the number of positions of its index
/// in `x`, the whole table to the length of `x`, and each column to the
/// number of positions of its index in `y`.
pub proof fn lemma_joint_margins(x: Seq<usize>, y: Seq<usize>, t: Seq<Seq<u64>>)
    requires
        x.len() == y.len(),
        is_joint_table(x, y, t),
    ensures
        forall|a: int| 0 <= a < t.len() ==> total(#[trigger] t[a]) == index_count(x, x.len() as int, a),
        table_total(t) == x.len(),
        forall|b: int|
            0 <= b < t[0].len() ==> total(#[trigger] column(t, b)) == index_count(
                y,
                y.len() as int,
                b,
            ),
{
    assert forall|a: int| 0 <= a < t.len() implies total(#[trigger] t[a]) == index_count(
        x,
        x.len() as int,
        a,
    ) by {
        lemma_total_of_row(x, y, a, t[a]);
        lemma_row_sum_all(x, y, x.len() as int, a, t[a].len() as int);
    }
    lemma_table_total_rows(t, x, x.len() as int);
    lemma_index_sum_all(x, x.len() as int, t.len() as int);
    assert forall|b: int| 0 <= b < t[0].len() implies total(#[trigger] column(t, b))
        == index_count(y, y.len() as int, b) by {
        let col = column(t, b);
        assert forall|a: int| 0 <= a < col.len() implies #[trigger] col[a] == pair_count(
            y,
            x,
            y.len() as int,
            b,
            a,
        ) by {
            lemma_pair_count_swap(x, y, x.len() as int, a, b);
        }
        lemma_total_of_row(y, x, b, col);
        lemma_row_sum_all(y, x, y.len() as int, b, t.len() as int);
    }
}

} // verus!
