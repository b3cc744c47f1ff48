//! Totals of reward rows and grids, and how they change when a cell is rewritten.

use vstd::prelude::*;

verus! {

/// The rewards of one row, as mathematical integers.
pub open spec fn row_view(row: Seq<i32>) -> Seq<int> {
    Seq::new(row.len(), |j: int| row[j] as int)
}

/// The rewards held by a vector of rows, as mathematical integers.
pub open spec fn grid_view(rows: Seq<Vec<i32>>) -> Seq<Seq<int>> {
    Seq::new(rows.len(), |i: int| row_view(rows[i]@))
}

/// All rows have the given length.
pub open spec fn rows_have_width(points: Seq<Seq<int>>, width: int) -> bool {
    forall|i: int| 0 <= i < points.len() ==> (#[trigger] points[i]).len() == width
}

/// No reward of the row is negative.
pub open spec fn row_nonnegative(row: Seq<int>) -> bool {
    forall|j: int| 0 <= j < row.len() ==> 0 <= #[trigger] row[j]
}

/// The sum of the rewards in one row.
pub open spec fn row_total(row: Seq<int>) -> int
    decreases row.len(),
{
    if row.len() == 0 {
        0
    } else {
        row_total(row.drop_last()) + row.last()
    }
}

/// The sum of all rewards in a grid.
pub open spec fn grid_total(points: Seq<Seq<int>>) -> int
    decreases points.len(),
{
    if points.len() == 0 {
        0
    } else {
        grid_total(points.drop_last()) + row_total(points.last())
    }
}

/// Every reward of the row lies in `lo..=hi`.
pub open spec fn row_within(row: Seq<int>, lo: int, hi: int) -> bool {
    forall|j: int| 0 <= j < row.len() ==> lo <= #[trigger] row[j] <= hi
}

/// Every reward of the grid lies in `lo..=hi`.
pub open spec fn grid_within(points: Seq<Seq<int>>, lo: int, hi: int) -> bool {
    forall|i: int| 0 <= i < points.len() ==> row_within(#[trigger] points[i], lo, hi)
}

/// No reward of the grid is negative.
pub open spec fn grid_nonnegative(points: Seq<Seq<int>>) -> bool {
    forall|i: int, j: int|
        0 <= i < points.len() && 0 <= j < points[i].len() ==> 0 <= #[trigger] points[i][j]
}

/// Rewriting one reward changes the row's total by the difference.
pub proof fn lemma_row_total_update(row: Seq<int>, j: int, value: int)
    requires
        0 <= j < row.len(),
    ensures
        row_total(row.update(j, value)) == row_total(row) - row[j] + value,
    decreases row.len(),
{
    let updated = row.update(j, value);
    if j == row.len() - 1 {
        assert(updated.drop_last() =~= row.drop_last());
    } else {
        lemma_row_total_update(row.drop_last(), j, value);
        assert(updated.drop_last() =~= row.drop_last().update(j, value));
    }
}

/// Replacing one row changes the grid's total by the difference of the rows' totals.
pub proof fn lemma_grid_total_update(points: Seq<Seq<int>>, i: int, row: Seq<int>)
    requires
        0 <= i < points.len(),
    ensures
        grid_total(points.update(i, row)) == grid_total(points) - row_total(points[i]) + row_total(
            row,
        ),
    decreases points.len(),
{
    let updated = points.update(i, row);
    if i == points.len() - 1 {
        assert(updated.drop_last() =~= points.drop_last());
    } else {
        lemma_grid_total_update(points.drop_last(), i, row);
        assert(updated.drop_last() =~= points.drop_last().update(i, row));
    }
}

/// A row whose rewards lie in `lo..=hi` has a total between `len * lo` and `len * hi`.
pub proof fn lemma_row_total_bounds(row: Seq<int>, lo: int, hi: int)
    requires
        row_within(row, lo, hi),
    ensures
        row.len() * lo <= row_total(row) <= row.len() * hi,
    decreases row.len(),
{
    if row.len() == 0 {
        assert(row.len() * lo == 0 && row.len() * hi == 0) by (nonlinear_arith)
            requires
                row.len() == 0,
        ;
    } else {
        let rest = row.drop_last();
        assert(row_within(rest, lo, hi));
        lemma_row_total_bounds(rest, lo, hi);
        assert(row.len() * lo == rest.len() * lo + lo) by (nonlinear_arith)
            requires
                row.len() == rest.len() + 1,
        ;
        assert(row.len() * hi == rest.len() * hi + hi) by (nonlinear_arith)
            requires
                row.len() == rest.len() + 1,
        ;
    }
}

/// A row without negative rewards has a non-negative total.
pub proof fn lemma_row_total_nonnegative(row: Seq<int>)
    requires
        row_nonnegative(row),
    ensures
        0 <= row_total(row),
    decreases row.len(),
{
    if row.len() > 0 {
        assert(row_nonnegative(row.drop_last()));
        lemma_row_total_nonnegative(row.drop_last());
    }
}

/// In a row without negative rewards no single reward exceeds the total.
pub proof fn lemma_row_entry_le_total(row: Seq<int>, j: int)
    requires
        row_nonnegative(row),
        0 <= j < row.len(),
    ensures
        0 <= row[j] <= row_total(row),
{
    lemma_row_total_update(row, j, 0);
    assert(row_nonnegative(row.update(j, 0)));
    lemma_row_total_nonnegative(row.update(j, 0));
}

/// A grid without negative rewards has a non-negative total.
pub proof fn lemma_grid_total_nonnegative(points: Seq<Seq<int>>)
    requires
        grid_nonnegative(points),
    ensures
        0 <= grid_total(points),
    decreases points.len(),
{
    if points.len() > 0 {
        assert(grid_nonnegative(points.drop_last()));
        lemma_grid_total_nonnegative(points.drop_last());
        lemma_row_total_nonnegative(points.last());
    }
}

/// In a grid without negative rewards no single reward exceeds the grid's total.
pub proof fn lemma_grid_entry_le_total(points: Seq<Seq<int>>, i: int, j: int)
    requires
        grid_nonnegative(points),
        0 <= i < points.len(),
        0 <= j < points[i].len(),
    ensures
        0 <= points[i][j] <= grid_total(points),
{
    lemma_row_entry_le_total(points[i], j);
    let cleared = points.update(i, Seq::<int>::empty());
    lemma_grid_total_update(points, i, Seq::<int>::empty());
    assert(grid_nonnegative(cleared));
    lemma_grid_total_nonnegative(cleared);
}

/// The total of a prefix grows by the next reward when the prefix grows by one.
pub proof fn lemma_row_total_take_next(row: Seq<int>, j: int)
    requires
        0 <= j < row.len(),
    ensures
        row_total(row.take(j + 1)) == row_total(row.take(j)) + row[j],
{
    assert(row.take(j + 1).drop_last() =~= row.take(j));
}

/// The total of the first rows grows by the next row's total when one more row is counted.
pub proof fn lemma_grid_total_take_next(points: Seq<Seq<int>>, i: int)
    requires
        0 <= i < points.len(),
    ensures
        grid_total(points.take(i + 1)) == grid_total(points.take(i)) + row_total(points[i]),
{
    assert(points.take(i + 1).drop_last() =~= points.take(i));
}

/// In a row without negative rewards the total of a prefix does not exceed the row's total.
pub proof fn lemma_row_total_take_le(row: Seq<int>, j: int)
    requires
        row_nonnegative(row),
        0 <= j <= row.len(),
    ensures
        0 <= row_total(row.take(j)) <= row_total(row),
    decreases row.len() - j,
{
    if j == row.len() {
        assert(row.take(j) =~= row);
        lemma_row_total_nonnegative(row);
    } else {
        lemma_row_total_take_next(row, j);
        lemma_row_total_take_le(row, j + 1);
        lemma_row_total_nonnegative(row.take(j));
    }
}

/// In a grid without negative rewards the total of the first rows does not exceed the
/// grid's total.
pub proof fn lemma_grid_total_take_le(points: Seq<Seq<int>>, i: int)
    requires
        grid_nonnegative(points),
        0 <= i <= points.len(),
    ensures
        0 <= grid_total(points.take(i)) <= grid_total(points),
    decreases points.len() - i,
{
    if i == points.len() {
        assert(points.take(i) =~= points);
        lemma_grid_total_nonnegative(points);
    } else {
        lemma_grid_total_take_next(points, i);
        lemma_grid_total_take_le(points, i + 1);
        lemma_grid_total_nonnegative(points.take(i));
        lemma_row_total_nonnegative(points[i]);
    }
}

/// A grid of rows of one width whose rewards lie in `0..=hi` has a total of at most
/// `rows * width * hi`.
pub proof fn lemma_grid_total_bounds(points: Seq<Seq<int>>, width: int, hi: int)
    requires
        rows_have_width(points, width),
        grid_within(points, 0, hi),
        0 <= width,
        0 <= hi,
    ensures
        0 <= grid_total(points) <= points.len() * width * hi,
    decreases points.len(),
{
    if points.len() == 0 {
        assert(points.len() * width * hi == 0) by (nonlinear_arith)
            requires
                points.len() == 0,
        ;
    } else {
        let rest = points.drop_last();
        let last = points.last();
        assert(rows_have_width(rest, width));
        assert(grid_within(rest, 0, hi));
        lemma_grid_total_bounds(rest, width, hi);
        lemma_row_total_bounds(last, 0, hi);
        assert(last.len() * 0 == 0) by (nonlinear_arith);
        assert(points.len() * width * hi == rest.len() * width * hi + width * hi)
            by (nonlinear_arith)
            requires
                points.len() == rest.len() + 1,
        ;
    }
}

/// True iff every row has the given length.
pub fn rows_have_length(points: &Vec<Vec<i32>>, width: usize) -> (ok: bool)
    ensures
        ok == rows_have_width(grid_view(points@), width as int),
{
    let mut i: usize = 0;
    while i < points.len()
        invariant
            i <= points.len(),
            forall|k: int| 0 <= k < i ==> (#[trigger] grid_view(points@)[k]).len() == width,
        decreases points.len() - i,
    {
        if points[i].len() != width {
            assert(grid_view(points@)[i as int].len() != width);
            return false;
        }
        i += 1;
    }
    true
}

/// True iff the row holds no negative reward.
pub fn row_is_nonnegative(row: &Vec<i32>) -> (ok: bool)
    ensures
        ok == row_nonnegative(row_view(row@)),
{
    let mut j: usize = 0;
    while j < row.len()
        invariant
            j <= row.len(),
            forall|k: int| 0 <= k < j ==> 0 <= #[trigger] row_view(row@)[k],
        decreases row.len() - j,
    {
        if row[j] < 0 {
            assert(row_view(row@)[j as int] < 0);
            return false;
        }
        j += 1;
    }
    true
}

/// True iff the grid holds no negative reward.
pub fn grid_is_nonnegative(points: &Vec<Vec<i32>>) -> (ok: bool)
    ensures
        ok == grid_nonnegative(grid_view(points@)),
{
    let mut i: usize = 0;
    while i < points.len()
        invariant
            i <= points.len(),
            forall|k: int| 0 <= k < i ==> row_nonnegative(#[trigger] grid_view(points@)[k]),
        decreases points.len() - i,
    {
        if !row_is_nonnegative(&points[i]) {
            proof {
                let row = grid_view(points@)[i as int];
                let j = choose|j: int| 0 <= j < row.len() && !(0 <= #[trigger] row[j]);
                assert(grid_view(points@)[i as int][j] < 0);
            }
            return false;
        }
        i += 1;
    }
    true
}

/// Adds the rewards of a row to a running total, as long as the sum fits an `i32`.
pub fn add_row_total(start: i32, row: &Vec<i32>) -> (total: Option<i32>)
    requires
        0 <= start,
        row_nonnegative(row_view(row@)),
    ensures
        match total {
            Some(t) => t == start + row_total(row_view(row@)),
            None => start + row_total(row_view(row@)) > i32::MAX,
        },
{
    let ghost rewards = row_view(row@);
    let mut total: i32 = start;
    let mut j: usize = 0;
    while j < row.len()
        invariant
            j <= row.len(),
            rewards == row_view(row@),
            row_nonnegative(rewards),
            0 <= start,
            total == start + row_total(rewards.take(j as int)),
        decreases row.len() - j,
    {
        proof {
            lemma_row_total_take_next(rewards, j as int);
            lemma_row_total_take_le(rewards, j as int);
            lemma_row_total_take_le(rewards, j + 1);
        }
        let reward: i32 = row[j];
        if reward > i32::MAX - total {
            return None;
        }
        total = total + reward;
        j += 1;
    }
    assert(rewards.take(j as int) =~= rewards);
    Some(total)
}

/// The total of a grid without negative rewards, as long as it fits an `i32`.
pub fn checked_grid_total(points: &Vec<Vec<i32>>) -> (total: Option<i32>)
    requires
        grid_nonnegative(grid_view(points@)),
    ensures
        match total {
            Some(t) => t == grid_total(grid_view(points@)),
            None => grid_total(grid_view(points@)) > i32::MAX,
        },
{
    let ghost rewards = grid_view(points@);
    let mut total: i32 = 0;
    let mut i: usize = 0;
    while i < points.len()
        invariant
            i <= points.len(),
            rewards == grid_view(points@),
            grid_nonnegative(rewards),
            total == grid_total(rewards.take(i as int)),
        decreases points.len() - i,
    {
        proof {
            lemma_grid_total_take_next(rewards, i as int);
            lemma_grid_total_take_le(rewards, i as int);
            lemma_grid_total_take_le(rewards, i + 1);
        }
        match add_row_total(total, &points[i]) {
            Some(sum) => {
                total = sum;
            },
            None => {
                return None;
            },
        }
        i += 1;
    }
    assert(rewards.take(i as int) =~= rewards);
    Some(total)
}

} // verus!
