//! The grid of columns that a workspace shows.

use crate::columns::reading::{pooled, reading_keeps_every_window, reading_order};
use crate::columns::spec::row_major;
use crate::state::{
    first_index, index_of, is_id, lemma_first_index, lemma_first_index_is, lemma_first_index_none,
    ContainerId, Fraction,
};
use vstd::prelude::*;

verus! {

/// The windows of a workspace by column, each column top to bottom, with
/// the width of each column.
#[derive(Debug)]
pub struct ColumnGrid {
    pub columns: Vec<Vec<ContainerId>>,
    pub widths: Vec<Fraction>,
}

/// The width that a column is to be given.
#[derive(Debug, Clone, Copy, PartialEq, Eq, Structural)]
pub enum ColumnWidth {
    /// The width of the center column.
    Center(Fraction),
    /// An even share, among `sharing` columns, of what a center column of
    /// this width leaves.
    Side { center: Fraction, sharing: usize },
    /// An even share of the workspace among this many columns.
    Even(usize),
    /// The width that the column already has.
    Kept(Fraction),
}

/// Columns to be shown, each with its width. A column may be empty; it is
/// then left out.
#[derive(Debug)]
pub struct Arrangement {
    pub columns: Vec<Vec<ContainerId>>,
    pub widths: Vec<ColumnWidth>,
}

/// What an [`Arrangement`] holds.
#[verifier::ext_equal]
pub struct Layout {
    pub columns: Seq<Seq<ContainerId>>,
    pub widths: Seq<ColumnWidth>,
}

/// The contents of each of the `columns`.
pub open spec fn cells<T>(columns: Seq<Vec<T>>) -> Seq<Seq<T>> {
    columns.map_values(|column: Vec<T>| column@)
}

/// What a [`ColumnGrid`] holds.
#[verifier::ext_equal]
pub struct Grid {
    pub columns: Seq<Seq<ContainerId>>,
    pub widths: Seq<Fraction>,
}

impl Grid {
    /// As the container tree is read: each column has a width and holds a
    /// window, and no window is in two places.
    pub open spec fn well_formed(self) -> bool {
        &&& self.widths.len() == self.columns.len()
        &&& forall|col: int|
            0 <= col < self.columns.len() ==> (#[trigger] self.columns[col]).len() > 0
        &&& reading_order(self.columns).no_duplicates()
    }
}

impl View for ColumnGrid {
    type V = Grid;

    open spec fn view(&self) -> Grid {
        Grid { columns: cells(self.columns@), widths: self.widths@ }
    }
}

impl View for Arrangement {
    type V = Layout;

    open spec fn view(&self) -> Layout {
        Layout { columns: cells(self.columns@), widths: self.widths@ }
    }
}

/// The number of windows in all the columns.
pub open spec fn total<T>(columns: Seq<Seq<T>>) -> nat
    decreases columns.len(),
{
    if columns.len() == 0 {
        0
    } else {
        total(columns.drop_last()) + columns.last().len()
    }
}

/// The columns that hold `id`.
pub open spec fn holds(id: ContainerId) -> spec_fn(Seq<ContainerId>) -> bool {
    |column: Seq<ContainerId>| column.contains(id)
}

/// The column and row of `id`: its topmost place in the leftmost column
/// that holds it.
pub open spec fn located(columns: Seq<Seq<ContainerId>>, id: ContainerId) -> Option<(int, int)> {
    match first_index(columns, holds(id)) {
        Some(col) => match first_index(columns[col], is_id(id)) {
            Some(row) => Some((col, row)),
            None => None,
        },
        None => None,
    }
}

/// A window that is located is there, and one that is not is nowhere.
pub proof fn lemma_located(columns: Seq<Seq<ContainerId>>, id: ContainerId)
    ensures
        match located(columns, id) {
            Some((col, row)) => {
                &&& 0 <= col < columns.len()
                &&& 0 <= row < columns[col].len()
                &&& columns[col][row] == id
            },
            None => forall|col: int|
                0 <= col < columns.len() ==> !(#[trigger] columns[col]).contains(id),
        },
{
    lemma_first_index(columns, holds(id));
    match first_index(columns, holds(id)) {
        Some(col) => {
            lemma_first_index(columns[col], is_id(id));
            let row = choose|row: int| 0 <= row < columns[col].len() && columns[col][row] == id;
            assert(is_id(id)(columns[col][row]));
        },
        None => {
            assert forall|col: int| 0 <= col < columns.len() implies !(
            #[trigger] columns[col]).contains(id) by {
                assert(!holds(id)(columns[col]));
            }
        },
    }
}

impl ColumnGrid {
    /// The windows in canonical order: row by row, left to right.
    pub fn windows(&self) -> (windows: Vec<ContainerId>)
        ensures
            windows@ == reading_order(self@.columns),
    {
        let windows: Vec<ContainerId> = row_major(&self.columns);
        assert(windows@ =~= reading_order(self@.columns));
        windows
    }

    /// The number of windows.
    pub fn window_count(&self) -> (count: usize)
        ensures
            count == total(self@.columns),
    {
        proof {
            lemma_reading_len(self@.columns);
        }
        self.windows().len()
    }

    /// The column and row of `id`.
    pub fn find(&self, id: ContainerId) -> (place: Option<(usize, usize)>)
        ensures
            match place {
                Some((col, row)) => located(self@.columns, id) == Some((col as int, row as int)),
                None => located(self@.columns, id) is None,
            },
    {
        let mut i: usize = 0;
        while i < self.columns.len()
            invariant
                i <= self.columns.len(),
                forall|k: int| 0 <= k < i ==> !holds(id)(#[trigger] self@.columns[k]),
            decreases self.columns.len() - i,
        {
            assert(self@.columns[i as int] == self.columns@[i as int]@);
            match index_of(&self.columns[i], id) {
                Some(row) => {
                    proof {
                        lemma_first_index(self@.columns[i as int], is_id(id));
                        assert(self@.columns[i as int][row as int] == id);
                        lemma_first_index_is(self@.columns, holds(id), i as int);
                    }
                    return Some((i, row));
                },
                None => {
                    proof {
                        lemma_first_index(self@.columns[i as int], is_id(id));
                        assert forall|k: int| 0 <= k < self@.columns[i as int].len() implies self@.columns[i as int][k]
                            != id by {
                            assert(!is_id(id)(self@.columns[i as int][k]));
                        }
                    }
                },
            }
            i += 1;
        }
        proof {
            lemma_first_index_none(self@.columns, holds(id));
        }
        None
    }
}

/// A grid is as long to read as it holds windows.
pub proof fn lemma_reading_len<T>(columns: Seq<Seq<T>>)
    ensures
        reading_order(columns).len() == total(columns),
{
    broadcast use vstd::seq_lib::group_to_multiset_ensures;

    reading_keeps_every_window(columns);
    lemma_pooled_len(columns);
}

/// The windows of all the columns are as many as the columns hold.
proof fn lemma_pooled_len<T>(columns: Seq<Seq<T>>)
    ensures
        pooled(columns).len() == total(columns),
    decreases columns.len(),
{
    broadcast use vstd::seq_lib::group_to_multiset_ensures;

    if columns.len() > 0 {
        lemma_pooled_len(columns.drop_last());
    }
}

} // verus!
