//! The columns that are shown, and the places of windows in them.

use crate::columns::grid::{cells, lemma_located, located, Arrangement, ColumnWidth, Layout};
use crate::columns::reading::{
    depth, lemma_row_upto_of_head, pooled, reading_keeps_every_window, reading_order, row_upto,
    rows_upto,
};
use crate::columns::ring::{flat, left_of, lemma_flat, lemma_flat_index, lemma_left_of_grows};
use crate::state::ContainerId;
use vstd::prelude::*;

verus! {

/// The columns that hold a window.
pub open spec fn filled<T>() -> spec_fn(Seq<T>) -> bool {
    |column: Seq<T>| column.len() > 0
}

/// The columns that are shown: a column without windows is left out.
pub open spec fn visible<T>(columns: Seq<Seq<T>>) -> Seq<Seq<T>> {
    columns.filter(filled())
}

/// The widths of the columns that are shown.
pub open spec fn visible_widths<T, W>(columns: Seq<Seq<T>>, widths: Seq<W>) -> Seq<W>
    decreases columns.len(),
{
    if columns.len() == 0 {
        Seq::empty()
    } else {
        let before = visible_widths(columns.drop_last(), widths);
        if columns.last().len() > 0 {
            before.push(widths[columns.len() - 1])
        } else {
            before
        }
    }
}

/// There is a width for each column that is shown.
pub proof fn lemma_visible_widths<T, W>(columns: Seq<Seq<T>>, widths: Seq<W>)
    ensures
        visible_widths(columns, widths).len() == visible(columns).len(),
    decreases columns.len(),
{
    reveal(Seq::filter);
    if columns.len() > 0 {
        lemma_visible_widths(columns.drop_last(), widths);
    }
}

impl Layout {
    /// What is shown of a layout: the columns that hold a window, each with
    /// its width.
    pub open spec fn shown(self) -> Layout {
        Layout {
            columns: visible(self.columns),
            widths: visible_widths(self.columns, self.widths),
        }
    }
}

impl Arrangement {
    /// What is shown of the arrangement: columns that end up empty are
    /// dropped, with their widths.
    pub fn without_empty_columns(&self) -> (shown: Arrangement)
        requires
            self.columns@.len() == self.widths@.len(),
        ensures
            shown@ == self@.shown(),
            shown.columns@.len() == shown.widths@.len(),
    {
        let mut columns: Vec<Vec<ContainerId>> = Vec::new();
        let mut widths: Vec<ColumnWidth> = Vec::new();
        let ghost model = cells(self.columns@);
        let mut col: usize = 0;
        proof {
            reveal(Seq::filter);
            assert(model.take(0) =~= Seq::<Seq<ContainerId>>::empty());
            assert(cells(columns@) =~= visible(model.take(0)));
        }
        while col < self.columns.len()
            invariant
                col <= self.columns.len(),
                self.columns@.len() == self.widths@.len(),
                model == cells(self.columns@),
                cells(columns@) == visible(model.take(col as int)),
                widths@ == visible_widths(model.take(col as int), self.widths@),
            decreases self.columns.len() - col,
        {
            let ghost before = cells(columns@);
            proof {
                reveal(Seq::filter);
                assert(model.take(col + 1).drop_last() =~= model.take(col as int));
                assert(model[col as int] == self.columns@[col as int]@);
            }
            if self.columns[col].len() > 0 {
                let column: Vec<ContainerId> = self.columns[col].clone();
                assert(column@ =~= self.columns@[col as int]@);
                columns.push(column);
                widths.push(self.widths[col]);
                assert(cells(columns@) =~= before.push(model[col as int]));
            }
            col += 1;
        }
        proof {
            assert(model.take(col as int) =~= model);
            lemma_visible_widths(model, self.widths@);
        }
        Arrangement { columns, widths }
    }
}

/// Empty columns do not matter to a row.
proof fn lemma_visible_row<T>(columns: Seq<Seq<T>>, row: int)
    requires
        0 <= row,
    ensures
        row_upto(visible(columns), row, visible(columns).len() as int) == row_upto(
            columns,
            row,
            columns.len() as int,
        ),
    decreases columns.len(),
{
    reveal(Seq::filter);
    if columns.len() > 0 {
        let head = columns.drop_last();
        lemma_visible_row(head, row);
        lemma_row_upto_of_head(columns, row, head.len() as int);
        if columns.last().len() > 0 {
            let shown = visible(head).push(columns.last());
            assert(visible(columns) == shown);
            assert(shown.drop_last() =~= visible(head));
            lemma_row_upto_of_head(shown, row, visible(head).len() as int);
        }
    }
}

/// Empty columns do not matter to the depth.
proof fn lemma_visible_depth<T>(columns: Seq<Seq<T>>)
    ensures
        depth(visible(columns)) == depth(columns),
    decreases columns.len(),
{
    reveal(Seq::filter);
    if columns.len() > 0 {
        let head = columns.drop_last();
        lemma_visible_depth(head);
        if columns.last().len() > 0 {
            assert(visible(columns).drop_last() =~= visible(head));
        }
    }
}

/// Empty columns do not matter to the first rows.
proof fn lemma_visible_rows<T>(columns: Seq<Seq<T>>, row: int)
    ensures
        rows_upto(visible(columns), row) == rows_upto(columns, row),
    decreases row,
{
    if row > 0 {
        lemma_visible_rows(columns, row - 1);
        lemma_visible_row(columns, row - 1);
    }
}

/// What is shown reads as what was to be shown.
pub proof fn showing_keeps_the_reading_order<T>(columns: Seq<Seq<T>>)
    ensures
        reading_order(visible(columns)) == reading_order(columns),
{
    lemma_visible_depth(columns);
    lemma_visible_rows(columns, depth(columns) as int);
}

/// Columns that all hold a window are all shown.
pub proof fn lemma_all_visible<T>(columns: Seq<Seq<T>>)
    requires
        forall|col: int| 0 <= col < columns.len() ==> (#[trigger] columns[col]).len() > 0,
    ensures
        visible(columns) == columns,
    decreases columns.len(),
{
    reveal(Seq::filter);
    if columns.len() > 0 {
        let head = columns.drop_last();
        assert forall|col: int| 0 <= col < head.len() implies (#[trigger] head[col]).len() > 0 by {
            assert(columns[col].len() > 0);
        }
        lemma_all_visible(head);
        assert(columns[columns.len() - 1].len() > 0);
        assert(visible(columns) =~= columns);
    } else {
        assert(visible(columns) =~= columns);
    }
}

/// Columns that are shown all hold a window.
pub proof fn lemma_visible_filled<T>(columns: Seq<Seq<T>>)
    ensures
        forall|col: int|
            0 <= col < visible(columns).len() ==> (#[trigger] visible(columns)[col]).len() > 0,
{
    assert forall|col: int| 0 <= col < visible(columns).len() implies (
    #[trigger] visible(columns)[col]).len() > 0 by {
        columns.lemma_filter_pred(filled(), col);
    }
}

/// Columns of the same windows hold none of them twice, if one of them
/// does not.
pub proof fn lemma_same_windows(
    a: Seq<Seq<ContainerId>>,
    b: Seq<Seq<ContainerId>>,
)
    requires
        pooled(a) == pooled(b),
        reading_order(a).no_duplicates(),
    ensures
        reading_order(b).no_duplicates(),
        flat(b).no_duplicates(),
{
    reading_keeps_every_window(a);
    reading_keeps_every_window(b);
    lemma_flat(b);
    reading_order(a).lemma_multiset_has_no_duplicates();
    reading_order(b).lemma_multiset_has_no_duplicates_conv();
    flat(b).lemma_multiset_has_no_duplicates_conv();
}

/// Columns further right start further on.
proof fn lemma_left_of_order<T>(columns: Seq<Seq<T>>, a: int, b: int)
    requires
        0 <= a < b < columns.len(),
    ensures
        left_of(columns, a) + columns[a].len() <= left_of(columns, b),
    decreases b - a,
{
    lemma_left_of_grows(columns, a);
    if a + 1 < b {
        lemma_left_of_order(columns, a + 1, b);
    }
}

/// A window is in one place only.
pub proof fn lemma_one_place(
    columns: Seq<Seq<ContainerId>>,
    one: (int, int),
    two: (int, int),
)
    requires
        reading_order(columns).no_duplicates(),
        0 <= one.0 < columns.len(),
        0 <= one.1 < columns[one.0].len(),
        0 <= two.0 < columns.len(),
        0 <= two.1 < columns[two.0].len(),
        columns[one.0][one.1] == columns[two.0][two.1],
    ensures
        one == two,
{
    lemma_same_windows(columns, columns);
    lemma_flat_index(columns, one.0, one.1);
    lemma_flat_index(columns, two.0, two.1);
    if one.0 < two.0 {
        lemma_left_of_order(columns, one.0, two.0);
    } else if two.0 < one.0 {
        lemma_left_of_order(columns, two.0, one.0);
    }
}

/// A window is located where it is.
pub proof fn lemma_located_at(columns: Seq<Seq<ContainerId>>, col: int, row: int)
    requires
        reading_order(columns).no_duplicates(),
        0 <= col < columns.len(),
        0 <= row < columns[col].len(),
    ensures
        located(columns, columns[col][row]) == Some((col, row)),
{
    let id = columns[col][row];
    lemma_located(columns, id);
    assert(columns[col].contains(id));
    let place = located(columns, id)->0;
    lemma_one_place(columns, place, (col, row));
}

} // verus!
