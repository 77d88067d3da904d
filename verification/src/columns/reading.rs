//! Reading a grid of columns row by row.

use vstd::multiset::Multiset;
use vstd::prelude::*;

verus! {

/// The windows in row `row` of the first `col` columns, left to right.
pub open spec fn row_upto<T>(columns: Seq<Seq<T>>, row: int, col: int) -> Seq<T>
    decreases col,
{
    if col <= 0 {
        Seq::empty()
    } else {
        let before = row_upto(columns, row, col - 1);
        if row < columns[col - 1].len() {
            before.push(columns[col - 1][row])
        } else {
            before
        }
    }
}

/// The windows in the rows above `row`, each row left to right.
pub open spec fn rows_upto<T>(columns: Seq<Seq<T>>, row: int) -> Seq<T>
    decreases row,
{
    if row <= 0 {
        Seq::empty()
    } else {
        rows_upto(columns, row - 1) + row_upto(columns, row - 1, columns.len() as int)
    }
}

/// The number of windows in the longest column.
pub open spec fn depth<T>(columns: Seq<Seq<T>>) -> nat
    decreases columns.len(),
{
    if columns.len() == 0 {
        0
    } else if columns.last().len() > depth(columns.drop_last()) {
        columns.last().len()
    } else {
        depth(columns.drop_last())
    }
}

/// The windows of a grid row by row, each row left to right.
pub open spec fn reading_order<T>(columns: Seq<Seq<T>>) -> Seq<T> {
    rows_upto(columns, depth(columns) as int)
}

/// Every column is at most as deep as the grid.
pub proof fn lemma_depth<T>(columns: Seq<Seq<T>>, col: int)
    requires
        0 <= col < columns.len(),
    ensures
        columns[col].len() <= depth(columns),
    decreases columns.len(),
{
    if col < columns.len() - 1 {
        lemma_depth(columns.drop_last(), col);
        assert(columns.drop_last()[col] == columns[col]);
    }
}

/// A row below every column is empty.
pub proof fn lemma_row_below<T>(columns: Seq<Seq<T>>, row: int, col: int)
    requires
        0 <= col <= columns.len(),
        depth(columns) <= row,
    ensures
        row_upto(columns, row, col) == Seq::<T>::empty(),
    decreases col,
{
    if col > 0 {
        lemma_row_below(columns, row, col - 1);
        lemma_depth(columns, col - 1);
    }
}

/// Reading further than the deepest column adds nothing.
pub proof fn lemma_rows_below<T>(columns: Seq<Seq<T>>, row: int)
    requires
        depth(columns) <= row,
    ensures
        rows_upto(columns, row) == reading_order(columns),
    decreases row,
{
    if depth(columns) < row {
        lemma_rows_below(columns, row - 1);
        lemma_row_below(columns, row - 1, columns.len() as int);
        assert(rows_upto(columns, row) =~= rows_upto(columns, row - 1));
    }
}

/// A bound on every column bounds the depth.
pub proof fn lemma_depth_bound<T>(columns: Seq<Seq<T>>, bound: nat)
    requires
        forall|col: int| 0 <= col < columns.len() ==> (#[trigger] columns[col]).len() <= bound,
    ensures
        depth(columns) <= bound,
    decreases columns.len(),
{
    if columns.len() > 0 {
        assert forall|col: int| 0 <= col < columns.drop_last().len() implies (
        #[trigger] columns.drop_last()[col]).len() <= bound by {
            assert(columns.drop_last()[col] == columns[col]);
        }
        lemma_depth_bound(columns.drop_last(), bound);
        assert(columns[columns.len() - 1].len() <= bound);
    }
}

/// The windows other than `center`.
pub open spec fn other_than<T>(center: T) -> spec_fn(T) -> bool {
    |window: T| window != center
}

/// The windows of all the columns, without their order.
pub open spec fn pooled<T>(columns: Seq<Seq<T>>) -> Multiset<T>
    decreases columns.len(),
{
    if columns.len() == 0 {
        Multiset::empty()
    } else {
        pooled(columns.drop_last()).add(columns.last().to_multiset())
    }
}

/// Replacing one column changes the windows by that column alone.
pub proof fn lemma_pooled_update<T>(columns: Seq<Seq<T>>, col: int, column: Seq<T>)
    requires
        0 <= col < columns.len(),
    ensures
        pooled(columns.update(col, column)).add(columns[col].to_multiset()) == pooled(columns).add(
            column.to_multiset(),
        ),
    decreases columns.len(),
{
    let changed = columns.update(col, column);
    if col == columns.len() - 1 {
        assert(changed.drop_last() =~= columns.drop_last());
        assert(pooled(changed).add(columns[col].to_multiset()) =~= pooled(columns).add(
            column.to_multiset(),
        ));
    } else {
        lemma_pooled_update(columns.drop_last(), col, column);
        assert(changed.drop_last() =~= columns.drop_last().update(col, column));
        assert(pooled(changed).add(columns[col].to_multiset()) =~= pooled(
            columns.drop_last().update(col, column),
        ).add(columns.drop_last()[col].to_multiset()).add(columns.last().to_multiset()));
        assert(pooled(changed).add(columns[col].to_multiset()) =~= pooled(columns).add(
            column.to_multiset(),
        ));
    }
}

/// A window at the bottom of a column adds that one window.
pub proof fn lemma_pooled_push<T>(columns: Seq<Seq<T>>, col: int, window: T)
    requires
        0 <= col < columns.len(),
    ensures
        pooled(columns.update(col, columns[col].push(window))) == pooled(columns).insert(window),
{
    broadcast use vstd::seq_lib::group_to_multiset_ensures;

    lemma_pooled_update(columns, col, columns[col].push(window));
    let before = pooled(columns);
    let after = pooled(columns.update(col, columns[col].push(window)));
    assert(columns[col].push(window).to_multiset() =~= columns[col].to_multiset().insert(window));
    assert forall|w: T| #[trigger] after.count(w) == before.insert(window).count(w) by {
        let column = columns[col].to_multiset();
        assert(after.add(column).count(w) == before.add(column.insert(window)).count(w));
    }
    assert(after =~= before.insert(window));
}

/// A grid holds a window where one of its columns does.
pub proof fn lemma_pooled_contains<T>(columns: Seq<Seq<T>>, window: T)
    ensures
        pooled(columns).contains(window) <==> exists|col: int|
            0 <= col < columns.len() && (#[trigger] columns[col]).contains(window),
    decreases columns.len(),
{
    broadcast use vstd::seq_lib::group_to_multiset_ensures;

    if columns.len() > 0 {
        let head = columns.drop_last();
        lemma_pooled_contains(head, window);
        if pooled(columns).contains(window) {
            if columns.last().to_multiset().contains(window) {
                assert(columns[columns.len() - 1].contains(window));
            } else {
                let col = choose|col: int|
                    0 <= col < head.len() && (#[trigger] head[col]).contains(window);
                assert(columns[col].contains(window));
            }
        }
        if exists|col: int| 0 <= col < columns.len() && (#[trigger] columns[col]).contains(window) {
            let col = choose|col: int|
                0 <= col < columns.len() && (#[trigger] columns[col]).contains(window);
            if col < head.len() {
                assert(head[col].contains(window));
            } else {
                assert(columns.last().to_multiset().contains(window));
            }
        }
    }
}

/// The first `row` windows of a column.
spec fn top<T>(column: Seq<T>, row: int) -> Seq<T> {
    column.take(
        if row < column.len() {
            row
        } else {
            column.len() as int
        },
    )
}

/// The rows above `row` of a grid.
spec fn tops<T>(columns: Seq<Seq<T>>, row: int) -> Seq<Seq<T>> {
    columns.map_values(|column: Seq<T>| top(column, row))
}

/// Columns further right do not matter to the first columns of a row.
pub proof fn lemma_row_upto_of_head<T>(columns: Seq<Seq<T>>, row: int, col: int)
    requires
        0 <= col < columns.len(),
    ensures
        row_upto(columns.drop_last(), row, col) == row_upto(columns, row, col),
    decreases col,
{
    if col > 0 {
        lemma_row_upto_of_head(columns, row, col - 1);
    }
}

/// One more row adds the windows of that row.
proof fn lemma_pooled_row<T>(columns: Seq<Seq<T>>, row: int)
    requires
        0 <= row,
    ensures
        pooled(tops(columns, row + 1)) == pooled(tops(columns, row)).add(
            row_upto(columns, row, columns.len() as int).to_multiset(),
        ),
    decreases columns.len(),
{
    broadcast use vstd::seq_lib::group_to_multiset_ensures;

    let whole = row_upto(columns, row, columns.len() as int);
    if columns.len() == 0 {
        assert(whole.to_multiset() =~= Multiset::<T>::empty());
        assert(pooled(tops(columns, row + 1)) =~= pooled(tops(columns, row)).add(
            whole.to_multiset(),
        ));
    } else {
        let head = columns.drop_last();
        let column = columns.last();
        lemma_pooled_row(head, row);
        lemma_row_upto_of_head(columns, row, head.len() as int);
        assert(tops(columns, row + 1).drop_last() =~= tops(head, row + 1));
        assert(tops(columns, row).drop_last() =~= tops(head, row));
        let before = row_upto(columns, row, head.len() as int);
        if row < column.len() {
            assert(top(column, row + 1) =~= top(column, row).push(column[row]));
            assert(whole == before.push(column[row]));
            assert(top(column, row + 1).to_multiset() =~= top(column, row).to_multiset().insert(
                column[row],
            ));
            assert(whole.to_multiset() =~= before.to_multiset().insert(column[row]));
        } else {
            assert(top(column, row + 1) =~= top(column, row));
        }
        assert(pooled(tops(columns, row + 1)) =~= pooled(tops(columns, row)).add(
            whole.to_multiset(),
        ));
    }
}

/// The rows above `row` hold the windows of the columns above it.
proof fn lemma_pooled_rows<T>(columns: Seq<Seq<T>>, row: int)
    requires
        0 <= row,
    ensures
        rows_upto(columns, row).to_multiset() == pooled(tops(columns, row)),
    decreases row,
{
    broadcast use vstd::seq_lib::group_to_multiset_ensures;

    if row == 0 {
        lemma_pooled_empty(tops(columns, 0));
        assert(rows_upto(columns, row).to_multiset() =~= Multiset::<T>::empty());
    } else {
        lemma_pooled_rows(columns, row - 1);
        lemma_pooled_row(columns, row - 1);
        vstd::seq_lib::lemma_multiset_commutative(
            rows_upto(columns, row - 1),
            row_upto(columns, row - 1, columns.len() as int),
        );
    }
}

/// Empty columns hold no window.
proof fn lemma_pooled_empty<T>(columns: Seq<Seq<T>>)
    requires
        forall|col: int| 0 <= col < columns.len() ==> (#[trigger] columns[col]).len() == 0,
    ensures
        pooled(columns) == Multiset::<T>::empty(),
    decreases columns.len(),
{
    broadcast use vstd::seq_lib::group_to_multiset_ensures;

    if columns.len() > 0 {
        let head = columns.drop_last();
        assert forall|col: int| 0 <= col < head.len() implies (#[trigger] head[col]).len() == 0 by {
            assert(head[col] == columns[col]);
        }
        lemma_pooled_empty(head);
        assert(columns[columns.len() - 1].len() == 0);
        assert(columns.last().to_multiset() =~= Multiset::<T>::empty());
        assert(pooled(columns) =~= Multiset::<T>::empty());
    }
}

/// Reading a grid gives each of its windows, as often as the grid holds it.
pub proof fn reading_keeps_every_window<T>(columns: Seq<Seq<T>>)
    ensures
        reading_order(columns).to_multiset() == pooled(columns),
{
    let deep = depth(columns) as int;
    lemma_pooled_rows(columns, deep);
    assert forall|col: int| 0 <= col < columns.len() implies #[trigger] tops(columns, deep)[col]
        == columns[col] by {
        lemma_depth(columns, col);
        assert(top(columns[col], deep) =~= columns[col]);
    }
    assert(tops(columns, deep) =~= columns);
}

/// The reading order holds a window where one of the columns does.
pub proof fn lemma_reading_contains<T>(columns: Seq<Seq<T>>, window: T)
    ensures
        reading_order(columns).contains(window) <==> exists|col: int|
            0 <= col < columns.len() && (#[trigger] columns[col]).contains(window),
{
    broadcast use vstd::seq_lib::group_to_multiset_ensures;

    reading_keeps_every_window(columns);
    lemma_pooled_contains(columns, window);
}

/// The number of windows that are read before the one at a place.
pub open spec fn read_before<T>(columns: Seq<Seq<T>>, col: int, row: int) -> int {
    (rows_upto(columns, row).len() + row_upto(columns, row, col).len()) as int
}

/// A window is in its row behind those left of it.
proof fn lemma_in_row<T>(columns: Seq<Seq<T>>, row: int, col: int, upto: int)
    requires
        0 <= col < upto <= columns.len(),
        0 <= row < columns[col].len(),
    ensures
        row_upto(columns, row, col).len() < row_upto(columns, row, upto).len(),
        row_upto(columns, row, upto)[row_upto(columns, row, col).len() as int]
            == columns[col][row],
    decreases upto,
{
    if col < upto - 1 {
        lemma_in_row(columns, row, col, upto - 1);
    }
}

/// A row is read behind those above it.
proof fn lemma_in_rows<T>(columns: Seq<Seq<T>>, row: int, upto: int, at: int)
    requires
        0 <= row < upto,
        0 <= at < row_upto(columns, row, columns.len() as int).len(),
    ensures
        rows_upto(columns, row).len() + at < rows_upto(columns, upto).len(),
        rows_upto(columns, upto)[rows_upto(columns, row).len() + at] == row_upto(
            columns,
            row,
            columns.len() as int,
        )[at],
        rows_upto(columns, row).len() + row_upto(columns, row, columns.len() as int).len()
            <= rows_upto(columns, upto).len(),
    decreases upto,
{
    if row < upto - 1 {
        lemma_in_rows(columns, row, upto - 1, at);
    }
}

/// A window is read behind the windows of the rows above it and those left
/// of it in its row.
pub proof fn lemma_read_at<T>(columns: Seq<Seq<T>>, col: int, row: int)
    requires
        0 <= col < columns.len(),
        0 <= row < columns[col].len(),
    ensures
        0 <= read_before(columns, col, row) < reading_order(columns).len(),
        reading_order(columns)[read_before(columns, col, row)] == columns[col][row],
{
    lemma_depth(columns, col);
    lemma_in_row(columns, row, col, columns.len() as int);
    lemma_in_rows(
        columns,
        row,
        depth(columns) as int,
        row_upto(columns, row, col).len() as int,
    );
}

/// Reading goes row by row, and left to right in each row: of two windows
/// the one in the upper row is read first, and of two in the same row the
/// one further left. They are read at the indices returned.
pub proof fn reading_goes_row_by_row<T>(
    columns: Seq<Seq<T>>,
    one: (int, int),
    two: (int, int),
) -> (at: (int, int))
    requires
        0 <= one.0 < columns.len(),
        0 <= one.1 < columns[one.0].len(),
        0 <= two.0 < columns.len(),
        0 <= two.1 < columns[two.0].len(),
        one.1 < two.1 || (one.1 == two.1 && one.0 < two.0),
    ensures
        0 <= at.0 < at.1 < reading_order(columns).len(),
        reading_order(columns)[at.0] == columns[one.0][one.1],
        reading_order(columns)[at.1] == columns[two.0][two.1],
{
    lemma_read_at(columns, one.0, one.1);
    lemma_read_at(columns, two.0, two.1);
    lemma_in_row(columns, one.1, one.0, columns.len() as int);
    if one.1 < two.1 {
        lemma_in_rows(
            columns,
            one.1,
            two.1,
            row_upto(columns, one.1, one.0).len() as int,
        );
    } else {
        lemma_in_row(columns, one.1, one.0, two.0);
    }
    (read_before(columns, one.0, one.1), read_before(columns, two.0, two.1))
}

} // verus!
