//! The commands that move windows and focus within a workspace's columns.

use crate::columns::{effective, effective_columns, ColumnsError, ColumnsFault, MonitorDefault};
use crate::columns::grid::{
    cells, lemma_located, located, total, Arrangement, ColumnGrid, ColumnWidth, Layout,
};
use crate::columns::master::{
    center_col, center_column, center_of, focused, focused_window_id, measured, repaired,
};
use crate::columns::ring::{
    flatten, lemma_loop_around, lemma_turned_back, loop_around, reshape, rotated, turn, turned,
    upend,
};
use crate::state::{
    first_index, index_of, is_id, lemma_first_index, ColumnsMode, ContainerId, Direction, Fraction,
    WindowContainer, WmState, Workspace,
};
use vstd::prelude::*;

verus! {

/// A rearrangement of a workspace's windows. It is shown first; once that
/// has succeeded it is committed, and then the focus moves.
#[derive(Debug)]
pub struct Change {
    /// The columns to be shown.
    pub arrangement: Arrangement,
    /// The window that becomes the master.
    pub master: Option<ContainerId>,
    /// The window that was swapped out of the center.
    pub centered_out: Option<ContainerId>,
    /// The window that gains focus.
    pub focus: Option<ContainerId>,
}

/// What a [`Change`] holds.
#[verifier::ext_equal]
pub struct Rearranged {
    pub layout: Layout,
    pub master: Option<ContainerId>,
    pub centered_out: Option<ContainerId>,
    pub focus: Option<ContainerId>,
}

impl View for Change {
    type V = Rearranged;

    open spec fn view(&self) -> Rearranged {
        Rearranged {
            layout: self.arrangement@,
            master: self.master,
            centered_out: self.centered_out,
            focus: self.focus,
        }
    }
}

impl Change {
    /// Records a change that has been shown: the window in the center
    /// becomes the workspace's master, so that the change outlives the
    /// next reapply, and the window swapped out of the center becomes the
    /// next toggle target.
    pub fn commit(&self, workspace: &mut Workspace, state: &mut WmState)
        ensures
            *final(workspace) == match self.master {
                Some(master) => old(workspace).with_master(Some(master)),
                None => *old(workspace),
            },
            *final(state) == match self.centered_out {
                Some(window) => old(state).with_centered_out(Some(window)),
                None => *old(state),
            },
    {
        if self.master.is_some() {
            workspace.master_window = self.master;
        }
        if self.centered_out.is_some() {
            state.last_centered_out = self.centered_out;
        }
    }
}

/// What a change to be shown holds.
pub open spec fn changed(change: Option<Change>) -> Option<Rearranged> {
    match change {
        Some(change) => Some(change@),
        None => None,
    }
}

/// The widths that the columns already have.
pub open spec fn kept_widths(grid: ColumnGrid) -> Seq<ColumnWidth> {
    grid@.widths.map_values(|width: Fraction| ColumnWidth::Kept(width))
}

/// The topmost window of a column.
pub open spec fn top_of(columns: Seq<Seq<ContainerId>>, col: Option<int>) -> Option<ContainerId> {
    match col {
        Some(col) => if 0 <= col < columns.len() && columns[col].len() > 0 {
            Some(columns[col][0])
        } else {
            None
        },
        None => None,
    }
}

/// The window that a rotation brings to the focused slot.
pub open spec fn rotated_focus(workspace: Workspace, center: int, ccw: bool) -> Option<
    ContainerId,
> {
    let slots = loop_around(workspace.grid@.columns, center);
    match focused(workspace) {
        Some(id) => match first_index(slots, is_id(id)) {
            Some(at) => Some(turned(slots, ccw)[at]),
            None => None,
        },
        None => None,
    }
}

/// What rotating a workspace's windows comes to.
pub open spec fn rotation(workspace: Workspace, ccw: bool) -> Option<Rearranged> {
    match center_col(workspace) {
        Some(center) => if total(workspace.grid@.columns) >= 2 {
            let columns = rotated(workspace.grid@.columns, center, ccw);
            Some(
                Rearranged {
                    layout: Layout { columns, widths: kept_widths(workspace.grid) },
                    master: top_of(columns, Some(center)),
                    centered_out: None,
                    focus: rotated_focus(workspace, center, ccw),
                },
            )
        } else {
            None
        },
        None => None,
    }
}

/// The columns with the windows at two places exchanged.
pub open spec fn swapped(
    columns: Seq<Seq<ContainerId>>,
    one: (int, int),
    two: (int, int),
) -> Seq<Seq<ContainerId>> {
    let first = columns[one.0][one.1];
    let second = columns[two.0][two.1];
    let half = columns.update(one.0, columns[one.0].update(one.1, second));
    half.update(two.0, half[two.0].update(two.1, first))
}

/// The place that swaps with the center: that of the focused window or,
/// where that is the center, of the window last swapped out of it.
pub open spec fn partner(
    workspace: Workspace,
    center: int,
    last_centered_out: Option<ContainerId>,
) -> Option<(int, int)> {
    match focused(workspace) {
        Some(id) => if id != workspace.grid@.columns[center][0] {
            located(workspace.grid@.columns, id)
        } else {
            match last_centered_out {
                Some(out) => located(workspace.grid@.columns, out),
                None => None,
            }
        },
        None => None,
    }
}

/// What swapping a window into the center comes to.
pub open spec fn centering(
    workspace: Workspace,
    last_centered_out: Option<ContainerId>,
) -> Option<Rearranged> {
    match center_col(workspace) {
        Some(center) => match partner(workspace, center, last_centered_out) {
            Some(place) => if total(workspace.grid@.columns) >= 2 && place != (center, 0int) {
                let entering = workspace.grid@.columns[place.0][place.1];
                Some(
                    Rearranged {
                        layout: Layout {
                            columns: swapped(workspace.grid@.columns, (center, 0int), place),
                            widths: kept_widths(workspace.grid),
                        },
                        master: Some(entering),
                        centered_out: Some(workspace.grid@.columns[center][0]),
                        focus: Some(entering),
                    },
                )
            } else {
                None
            },
            None => None,
        },
        None => None,
    }
}

/// What is known of the column beside a window.
#[derive(Debug)]
pub struct Beside {
    /// For each row of that column, the bits of the non-negative `f32`
    /// that measures how much of its height lies level with the window.
    pub overlaps: Vec<u32>,
    /// The child last focused in the container of that column's first
    /// window.
    pub remembered: Option<ContainerId>,
}

/// The row with the greatest overlap, the topmost of several.
pub open spec fn level_row(overlaps: Seq<u32>) -> Option<int>
    decreases overlaps.len(),
{
    if overlaps.len() == 0 {
        None
    } else {
        match level_row(overlaps.drop_last()) {
            Some(best) => if overlaps.last() > overlaps[best] {
                Some(overlaps.len() - 1)
            } else {
                Some(best)
            },
            None => Some(overlaps.len() - 1),
        }
    }
}

/// The level row is the first of those that overlap the most.
pub proof fn lemma_level_row(overlaps: Seq<u32>)
    ensures
        match level_row(overlaps) {
            Some(row) => {
                &&& 0 <= row < overlaps.len()
                &&& forall|i: int| 0 <= i < overlaps.len() ==> #[trigger] overlaps[i]
                    <= overlaps[row]
                &&& forall|i: int| 0 <= i < row ==> #[trigger] overlaps[i] < overlaps[row]
            },
            None => overlaps.len() == 0,
        },
    decreases overlaps.len(),
{
    if overlaps.len() > 0 {
        let head = overlaps.drop_last();
        lemma_level_row(head);
        if let Some(best) = level_row(head) {
            assert forall|i: int| 0 <= i < head.len() implies #[trigger] overlaps[i]
                <= overlaps[best] by {
                assert(head[i] <= head[best]);
            }
            assert forall|i: int| 0 <= i < best implies #[trigger] overlaps[i] < overlaps[best] by {
                assert(head[i] < head[best]);
            }
        }
    }
}

/// The column left or right of column `col`.
pub open spec fn side_col(count: int, col: int, direction: Direction) -> Option<int> {
    match direction {
        Direction::Left => if col > 0 {
            Some(col - 1)
        } else {
            None
        },
        Direction::Right => if col + 1 < count {
            Some(col + 1)
        } else {
            None
        },
        _ => None,
    }
}

/// The row above or below row `row` of a column of this length.
pub open spec fn next_row(len: int, row: int, direction: Direction) -> Option<int> {
    match direction {
        Direction::Up => if row > 0 {
            Some(row - 1)
        } else {
            None
        },
        Direction::Down => if row + 1 < len {
            Some(row + 1)
        } else {
            None
        },
        _ => None,
    }
}

/// Whether a direction goes to another column.
pub open spec fn sideways(direction: Direction) -> bool {
    direction == Direction::Left || direction == Direction::Right
}

/// What a directional move is answered with.
#[derive(Debug)]
pub enum MoveAction {
    /// The columns do not handle the move.
    NotHandled,
    /// The window leaves for the workspace of the monitor in the
    /// direction of the move.
    LeaveWorkspace,
    /// The window moves within the columns.
    Rearrange(Change),
}

/// What a [`MoveAction`] holds.
pub enum Moved {
    /// See [`MoveAction::NotHandled`].
    NotHandled,
    /// See [`MoveAction::LeaveWorkspace`].
    LeaveWorkspace,
    /// See [`MoveAction::Rearrange`].
    Rearrange(Rearranged),
}

impl View for MoveAction {
    type V = Moved;

    open spec fn view(&self) -> Moved {
        match self {
            MoveAction::NotHandled => Moved::NotHandled,
            MoveAction::LeaveWorkspace => Moved::LeaveWorkspace,
            MoveAction::Rearrange(change) => Moved::Rearrange(change@),
        }
    }
}

/// The place with which a window at `place` swaps, or `None` at the edge
/// of the columns. Within it, `None` where no row is level.
pub open spec fn move_target(
    columns: Seq<Seq<ContainerId>>,
    place: (int, int),
    direction: Direction,
    overlaps: Seq<u32>,
) -> Option<Option<(int, int)>> {
    if sideways(direction) {
        match side_col(columns.len() as int, place.0, direction) {
            Some(col) => match level_row(overlaps) {
                Some(row) => Some(Some((col, row))),
                None => Some(None),
            },
            None => None,
        }
    } else {
        match next_row(columns[place.0].len() as int, place.1, direction) {
            Some(row) => Some(Some((place.0, row))),
            None => None,
        }
    }
}

/// What moving the window `id` within a workspace's columns comes to.
pub open spec fn moved_in(
    workspace: Workspace,
    id: ContainerId,
    direction: Direction,
    overlaps: Seq<u32>,
) -> Moved {
    match located(workspace.grid@.columns, id) {
        None => Moved::NotHandled,
        Some(place) => match move_target(workspace.grid@.columns, place, direction, overlaps) {
            None => Moved::LeaveWorkspace,
            Some(None) => Moved::NotHandled,
            Some(Some(target)) => {
                let columns = swapped(workspace.grid@.columns, place, target);
                Moved::Rearrange(
                    Rearranged {
                        layout: Layout { columns, widths: kept_widths(workspace.grid) },
                        master: top_of(columns, center_col(workspace)),
                        centered_out: None,
                        focus: Some(id),
                    },
                )
            },
        },
    }
}

/// What a directional move comes to.
pub open spec fn move_outcome(
    window: WindowContainer,
    workspace: Workspace,
    direction: Direction,
    overlaps: Seq<u32>,
    default: MonitorDefault,
) -> Result<Moved, ColumnsFault> {
    match window {
        WindowContainer::NonTilingWindow(_) => Ok(Moved::NotHandled),
        WindowContainer::TilingWindow(id) => match effective(workspace, default) {
            Err(fault) => Err(fault),
            Ok(None) => Ok(Moved::NotHandled),
            Ok(Some(_)) => Ok(moved_in(workspace, id, direction, overlaps)),
        },
    }
}

/// The workspace once a directional move was answered: its designated
/// master is brought up to date where the columns know the window.
pub open spec fn move_after(
    window: WindowContainer,
    workspace: Workspace,
    default: MonitorDefault,
) -> Workspace {
    match window {
        WindowContainer::NonTilingWindow(_) => workspace,
        WindowContainer::TilingWindow(id) => match effective(workspace, default) {
            Ok(Some(_)) => if located(workspace.grid@.columns, id) is Some {
                repaired(workspace)
            } else {
                workspace
            },
            _ => workspace,
        },
    }
}

/// Whether there is one overlap for each row of the column beside a
/// window.
pub open spec fn measures_beside(
    window: WindowContainer,
    workspace: Workspace,
    direction: Direction,
    overlaps: Seq<u32>,
) -> bool {
    window matches WindowContainer::TilingWindow(id) ==> (located(workspace.grid@.columns, id) matches Some(
        place,
    ) ==> (side_col(workspace.grid@.columns.len() as int, place.0, direction) matches Some(col)
        ==> overlaps.len() == workspace.grid@.columns[col].len()))
}

/// The window to focus in a column beside the one that is left.
pub open spec fn neighbour(
    mode: ColumnsMode,
    target: Seq<ContainerId>,
    overlaps: Seq<u32>,
    remembered: Option<ContainerId>,
) -> Option<ContainerId> {
    if target.len() == 1 {
        Some(target[0])
    } else if mode != ColumnsMode::Grid && remembered is Some && target.contains(remembered->0) {
        remembered
    } else {
        match level_row(overlaps) {
            Some(row) => if row < target.len() {
                Some(target[row])
            } else {
                None
            },
            None => None,
        }
    }
}

/// The window to focus from `place` in a direction.
pub open spec fn focus_target(
    workspace: Workspace,
    place: (int, int),
    direction: Direction,
    overlaps: Seq<u32>,
    remembered: Option<ContainerId>,
) -> Option<ContainerId> {
    let columns = workspace.grid@.columns;
    if sideways(direction) {
        match side_col(columns.len() as int, place.0, direction) {
            Some(col) => neighbour(workspace.columns_mode, columns[col], overlaps, remembered),
            None => None,
        }
    } else {
        match next_row(columns[place.0].len() as int, place.1, direction) {
            Some(row) => Some(columns[place.0][row]),
            None => None,
        }
    }
}

/// What a directional focus comes to: the window to focus, if the columns
/// handle it.
pub open spec fn focus_outcome(
    window: WindowContainer,
    workspace: Option<Workspace>,
    direction: Direction,
    overlaps: Seq<u32>,
    remembered: Option<ContainerId>,
    default: MonitorDefault,
) -> Result<Option<ContainerId>, ColumnsFault> {
    match (window, workspace) {
        (WindowContainer::TilingWindow(id), Some(workspace)) => match effective(
            workspace,
            default,
        ) {
            Err(fault) => Err(fault),
            Ok(None) => Ok(None),
            Ok(Some(_)) => match located(workspace.grid@.columns, id) {
                Some(place) => Ok(
                    focus_target(workspace, place, direction, overlaps, remembered),
                ),
                None => Ok(None),
            },
        },
        _ => Ok(None),
    }
}

/// The widths that the columns already have.
fn keep_widths(widths: &Vec<Fraction>) -> (kept: Vec<ColumnWidth>)
    ensures
        kept@ == widths@.map_values(|width: Fraction| ColumnWidth::Kept(width)),
{
    let mut kept: Vec<ColumnWidth> = Vec::new();
    let mut i: usize = 0;
    let ghost all = widths@.map_values(|width: Fraction| ColumnWidth::Kept(width));
    while i < widths.len()
        invariant
            i <= widths.len(),
            all == widths@.map_values(|width: Fraction| ColumnWidth::Kept(width)),
            kept@ == all.take(i as int),
        decreases widths.len() - i,
    {
        kept.push(ColumnWidth::Kept(widths[i]));
        assert(all.take(i + 1) =~= all.take(i as int).push(all[i as int]));
        i += 1;
    }
    assert(all.take(i as int) =~= all);
    kept
}

/// A copy of the columns.
fn copy_columns(columns: &Vec<Vec<ContainerId>>) -> (copy: Vec<Vec<ContainerId>>)
    ensures
        cells(copy@) == cells(columns@),
{
    let mut copy: Vec<Vec<ContainerId>> = Vec::new();
    let mut i: usize = 0;
    while i < columns.len()
        invariant
            i <= columns.len(),
            copy@.len() == i,
            forall|k: int| 0 <= k < i ==> (#[trigger] copy@[k])@ == columns@[k]@,
        decreases columns.len() - i,
    {
        let column: Vec<ContainerId> = columns[i].clone();
        assert(column@ =~= columns@[i as int]@);
        copy.push(column);
        i += 1;
    }
    assert(cells(copy@) =~= cells(columns@));
    copy
}

/// The topmost window of a column.
fn top_window(columns: &Vec<Vec<ContainerId>>, col: Option<usize>) -> (top: Option<ContainerId>)
    ensures
        top == top_of(
            cells(columns@),
            match col {
                Some(col) => Some(col as int),
                None => None,
            },
        ),
{
    match col {
        Some(col) => if col < columns.len() && columns[col].len() > 0 {
            Some(columns[col][0])
        } else {
            None
        },
        None => None,
    }
}

/// Exchanges the windows at two places.
fn swap(columns: &mut Vec<Vec<ContainerId>>, one: (usize, usize), two: (usize, usize))
    requires
        one.0 < old(columns)@.len(),
        one.1 < old(columns)@[one.0 as int]@.len(),
        two.0 < old(columns)@.len(),
        two.1 < old(columns)@[two.0 as int]@.len(),
    ensures
        cells(final(columns)@) == swapped(
            cells(old(columns)@),
            (one.0 as int, one.1 as int),
            (two.0 as int, two.1 as int),
        ),
{
    let first: ContainerId = columns[one.0][one.1];
    let second: ContainerId = columns[two.0][two.1];
    let ghost start = cells(columns@);
    columns[one.0][one.1] = second;
    let ghost half = cells(columns@);
    assert(half =~= start.update(one.0 as int, start[one.0 as int].update(one.1 as int, second)));
    columns[two.0][two.1] = first;
    assert(cells(columns@) =~= half.update(
        two.0 as int,
        half[two.0 as int].update(two.1 as int, first),
    ));
}

/// Rotates the windows of the focused workspace by one slot, keeping the
/// existing column layout (column count, per-column window counts, and
/// column widths) fixed: only the window occupying each slot changes.
///
/// Windows travel a clockwise loop around the center column: up the left
/// columns, across through the center, down the right columns, then
/// wrapping from the bottom-right slot back to the bottom-left. So for a
/// `*,C,*` layout with 2/1/2 windows the cycle is bottom-left, top-left,
/// center, top-right, bottom-right, and back to bottom-left. Clockwise is
/// the default; `ccw` reverses it. The focused slot stays focused, so its
/// occupant changes under a steady highlight and repeated rotates cycle
/// every window through it.
///
/// The window rotated into the center column becomes the workspace's
/// master, so the new arrangement survives the next reapply instead of
/// being undone by it.
pub fn apply_rotate(workspace: &mut Workspace, ccw: bool) -> (change: Option<Change>)
    ensures
        changed(change) == rotation(*old(workspace), ccw),
        *final(workspace) == measured(*old(workspace)),
{
    if workspace.grid.window_count() < 2 {
        return None;
    }
    let center: usize = match center_column(workspace) {
        Some(center) => center,
        None => return None,
    };
    let ghost model = workspace.grid@.columns;
    proof {
        lemma_located(model, center_of(*old(workspace))->0);
        lemma_loop_around(model, center as int);
    }

    // The columns left of center are traversed bottom to top, then the
    // center and right columns top to bottom.
    let slots: Vec<ContainerId> = flatten(&upend(&workspace.grid.columns, center));

    // Every window advances one slot, or goes back by one.
    let moved: Vec<ContainerId> = turn(&slots, ccw);
    proof {
        lemma_turned_back(slots@, ccw);
    }

    // The same physical slot stays focused after the windows rotate
    // beneath it.
    let focus: Option<ContainerId> = match focused_window_id(workspace) {
        Some(id) => match index_of(&slots, id) {
            Some(at) => {
                proof {
                    lemma_first_index(slots@, is_id(id));
                }
                Some(moved[at])
            },
            None => None,
        },
        None => None,
    };

    // Place each window back into its slot, preserving the exact column
    // shape.
    let columns: Vec<Vec<ContainerId>> = upend(&reshape(&moved, &workspace.grid.columns), center);
    let master: Option<ContainerId> = top_window(&columns, Some(center));
    let widths: Vec<ColumnWidth> = keep_widths(&workspace.grid.widths);
    Some(
        Change { arrangement: Arrangement { columns, widths }, master, centered_out: None, focus },
    )
}

/// Swaps a window into the center slot: the single-window `C` column.
///
/// When the focused window is *not* the center, it swaps into the center
/// and the old center takes its place; focus follows into the center. When
/// the focused window *is* the center, it swaps back with the window most
/// recently phased out of the center, so pressing `center` repeatedly
/// toggles between two windows. The window leaving the center is
/// remembered as the next toggle target, and whichever window lands in the
/// center becomes the workspace's master and gains focus. A no-op if there
/// is no toggle target, it no longer exists, or there is nothing to swap.
pub fn apply_center(workspace: &mut Workspace, state: &WmState) -> (change: Option<Change>)
    ensures
        changed(change) == centering(*old(workspace), state.last_centered_out),
        *final(workspace) == measured(*old(workspace)),
{
    if workspace.grid.window_count() < 2 {
        return None;
    }
    let center: usize = match center_column(workspace) {
        Some(center) => center,
        None => return None,
    };
    let ghost model = workspace.grid@.columns;
    proof {
        lemma_located(model, center_of(*old(workspace))->0);
        assert(model[center as int] == workspace.grid.columns@[center as int]@);
    }
    let center_id: ContainerId = workspace.grid.columns[center][0];
    let focused_id: ContainerId = match focused_window_id(workspace) {
        Some(id) => id,
        None => return None,
    };

    // Normally the focused window swaps with the center; if it already is
    // the center, the last window moved out of it does.
    let place: Option<(usize, usize)> = if focused_id == center_id {
        match state.last_centered_out {
            Some(id) => workspace.grid.find(id),
            None => None,
        }
    } else {
        workspace.grid.find(focused_id)
    };
    let (col, row) = match place {
        Some(place) => place,
        None => return None,
    };
    proof {
        let id = if focused_id == center_id {
            state.last_centered_out->0
        } else {
            focused_id
        };
        lemma_located(model, id);
        assert(model[col as int] == workspace.grid.columns@[col as int]@);
    }

    // Nothing to do if the partner already occupies the center.
    if col == center && row == 0 {
        return None;
    }
    let entering: ContainerId = workspace.grid.columns[col][row];
    let mut columns: Vec<Vec<ContainerId>> = copy_columns(&workspace.grid.columns);
    proof {
        assert(cells(columns@)[center as int] == columns@[center as int]@);
        assert(cells(columns@)[col as int] == columns@[col as int]@);
    }
    swap(&mut columns, (center, 0), (col, row));
    let widths: Vec<ColumnWidth> = keep_widths(&workspace.grid.widths);
    Some(
        Change {
            arrangement: Arrangement { columns, widths },
            master: Some(entering),
            centered_out: Some(center_id),
            focus: Some(entering),
        },
    )
}

/// The column left or right of column `col` of a grid, for a direction
/// that goes to another column.
pub fn adjacent_column(grid: &ColumnGrid, col: usize, direction: Direction) -> (side: Option<
    usize,
>)
    requires
        col < grid@.columns.len(),
    ensures
        match side {
            Some(side) => side_col(grid@.columns.len() as int, col as int, direction) == Some(side as int),
            None => side_col(grid@.columns.len() as int, col as int, direction) is None,
        },
{
    match direction {
        Direction::Left => if col > 0 {
            Some(col - 1)
        } else {
            None
        },
        Direction::Right => if col < grid.columns.len() - 1 {
            Some(col + 1)
        } else {
            None
        },
        _ => None,
    }
}

/// The row above or below row `row` of a column of `len` windows, for a
/// direction within the column.
fn adjacent_row(len: usize, row: usize, direction: Direction) -> (next: Option<usize>)
    requires
        row < len,
    ensures
        match next {
            Some(next) => next_row(len as int, row as int, direction) == Some(next as int),
            None => next_row(len as int, row as int, direction) is None,
        },
{
    match direction {
        Direction::Up => if row > 0 {
            Some(row - 1)
        } else {
            None
        },
        Direction::Down => if row < len - 1 {
            Some(row + 1)
        } else {
            None
        },
        _ => None,
    }
}

/// The row of a column level with a window beside it: the one whose
/// vertical span overlaps the window's the most, ties going to the
/// topmost. `None` for an empty column.
pub fn straight_across_row(overlaps: &Vec<u32>) -> (row: Option<usize>)
    ensures
        match row {
            Some(row) => level_row(overlaps@) == Some(row as int),
            None => level_row(overlaps@) is None,
        },
{
    if overlaps.len() == 0 {
        return None;
    }
    let mut best: usize = 0;
    let mut i: usize = 1;
    assert(overlaps@.take(1).drop_last() =~= Seq::<u32>::empty());
    assert(level_row(overlaps@.take(1).drop_last()) is None);
    while i < overlaps.len()
        invariant
            0 < i <= overlaps.len(),
            best < i,
            level_row(overlaps@.take(i as int)) == Some(best as int),
        decreases overlaps.len() - i,
    {
        assert(overlaps@.take(i + 1).drop_last() =~= overlaps@.take(i as int));
        if overlaps[i] > overlaps[best] {
            best = i;
        }
        i += 1;
    }
    assert(overlaps@.take(i as int) =~= overlaps@);
    Some(best)
}

/// The window in `target` level with a window beside it.
pub fn straight_across(overlaps: &Vec<u32>, target: &Vec<ContainerId>) -> (window: Option<
    ContainerId,
>)
    ensures
        window == match level_row(overlaps@) {
            Some(row) => if row < target@.len() {
                Some(target@[row])
            } else {
                None
            },
            None => None,
        },
{
    match straight_across_row(overlaps) {
        Some(row) => if row < target.len() {
            Some(target[row])
        } else {
            None
        },
        None => None,
    }
}

/// Moves the focused window one slot within its workspace's assigned
/// columns grid.
///
/// The workspace is treated as columns left to right, each a top-to-bottom
/// stack of windows. Interior moves swap the focused window with a
/// neighbouring slot: `Up`/`Down` with the window above/below it in its
/// column, `Left`/`Right` with the window level with it in the adjacent
/// column ([`straight_across_row`]). Swapping keeps every column's
/// window count fixed, so the center column, a single-window slot, always
/// stays exactly one window: moving a side window into the center
/// displaces the old center out to the vacated side slot, and moving the
/// center window out promotes the side window it swaps with into the
/// center. Whichever window ends up in the center column becomes the
/// workspace's master, so the arrangement survives the next reapply, and
/// focus follows the moved window.
///
/// At a column's edge the window leaves the workspace for the monitor
/// stacked in that direction: `Up`/`Down` past the top/bottom of a column
/// and `Left`/`Right` past the outermost column.
///
/// The move is not handled, leaving the caller to fall back to the default
/// directional mover, when the subject is not a tiling window in the grid
/// or the workspace has no effective columns.
pub fn move_window_in_columns(
    window: WindowContainer,
    direction: Direction,
    workspace: Option<&mut Workspace>,
    beside: &Beside,
    default: &MonitorDefault,
) -> (action: Result<MoveAction, ColumnsError>)
    requires
        workspace matches Some(subject) ==> measures_beside(
            window,
            *subject,
            direction,
            beside.overlaps@,
        ),
    ensures
        workspace is None ==> (action matches Ok(action) && action@ is NotHandled),
        workspace matches Some(subject) ==> {
            &&& *final(subject) == move_after(window, *subject, *default)
            &&& match action {
                Ok(action) => move_outcome(
                    window,
                    *subject,
                    direction,
                    beside.overlaps@,
                    *default,
                ) == Ok::<Moved, ColumnsFault>(action@),
                Err(error) => move_outcome(
                    window,
                    *subject,
                    direction,
                    beside.overlaps@,
                    *default,
                ) == Err::<Moved, ColumnsFault>(error@),
            }
        },
{
    let id: ContainerId = match window {
        WindowContainer::TilingWindow(id) => id,
        WindowContainer::NonTilingWindow(_) => return Ok(MoveAction::NotHandled),
    };
    match workspace {
        Some(workspace) => move_in_workspace(id, direction, workspace, beside, default),
        None => Ok(MoveAction::NotHandled),
    }
}

/// Moves the tiling window `id` one slot within its workspace's columns.
fn move_in_workspace(
    id: ContainerId,
    direction: Direction,
    workspace: &mut Workspace,
    beside: &Beside,
    default: &MonitorDefault,
) -> (action: Result<MoveAction, ColumnsError>)
    requires
        measures_beside(
            WindowContainer::TilingWindow(id),
            *old(workspace),
            direction,
            beside.overlaps@,
        ),
    ensures
        *final(workspace) == move_after(
            WindowContainer::TilingWindow(id),
            *old(workspace),
            *default,
        ),
        match action {
            Ok(action) => move_outcome(
                WindowContainer::TilingWindow(id),
                *old(workspace),
                direction,
                beside.overlaps@,
                *default,
            ) == Ok::<Moved, ColumnsFault>(action@),
            Err(error) => move_outcome(
                WindowContainer::TilingWindow(id),
                *old(workspace),
                direction,
                beside.overlaps@,
                *default,
            ) == Err::<Moved, ColumnsFault>(error@),
        },
{
    match effective_columns(workspace, default) {
        Ok(Some(_)) => {},
        Ok(None) => return Ok(MoveAction::NotHandled),
        Err(error) => return Err(error),
    }
    let (col, row) = match workspace.grid.find(id) {
        Some(place) => place,
        None => return Ok(MoveAction::NotHandled),
    };
    let ghost model = workspace.grid@.columns;
    proof {
        lemma_located(model, id);
        lemma_level_row(beside.overlaps@);
        assert(model[col as int] == workspace.grid.columns@[col as int]@);
    }
    let center: Option<usize> = center_column(workspace);
    let target: (usize, usize) = match direction {
        Direction::Up | Direction::Down => match adjacent_row(
            workspace.grid.columns[col].len(),
            row,
            direction,
        ) {
            Some(next) => (col, next),
            None => return Ok(MoveAction::LeaveWorkspace),
        },
        Direction::Left | Direction::Right => match adjacent_column(
            &workspace.grid,
            col,
            direction,
        ) {
            // Swap with the window level with this one so both columns
            // keep their window counts.
            Some(side) => match straight_across_row(&beside.overlaps) {
                Some(level) => {
                    assert(model[side as int] == workspace.grid.columns@[side as int]@);
                    (side, level)
                },
                None => return Ok(MoveAction::NotHandled),
            },
            None => return Ok(MoveAction::LeaveWorkspace),
        },
    };
    let mut columns: Vec<Vec<ContainerId>> = copy_columns(&workspace.grid.columns);
    proof {
        assert(cells(columns@)[col as int] == columns@[col as int]@);
        assert(cells(columns@)[target.0 as int] == columns@[target.0 as int]@);
    }
    swap(&mut columns, (col, row), target);

    // The swap may have changed the center column's occupant, so the
    // master is recorded explicitly.
    let master: Option<ContainerId> = top_window(&columns, center);
    let widths: Vec<ColumnWidth> = keep_widths(&workspace.grid.widths);
    Ok(
        MoveAction::Rearrange(
            Change {
                arrangement: Arrangement { columns, widths },
                master,
                centered_out: None,
                focus: Some(id),
            },
        ),
    )
}

/// The window to focus in the column `target_col` when navigating left or
/// right out of the column beside it.
///
/// In `Grid` mode every column is a stack, so the neighbour is the one
/// straight across ([`straight_across`]). The master-stack modes keep the
/// focus memory: the only ambiguous move is out of the single-window `C`
/// column into a stack, and returning to the window you left is more
/// useful there.
///
/// With one overlap for each row of the column, `None` only when the
/// column is empty.
pub fn neighbour_in_column(workspace: &Workspace, target_col: usize, beside: &Beside) -> (window:
    Option<ContainerId>)
    requires
        target_col < workspace.grid@.columns.len(),
    ensures
        window == neighbour(
            workspace.columns_mode,
            workspace.grid@.columns[target_col as int],
            beside.overlaps@,
            beside.remembered,
        ),
{
    let target: &Vec<ContainerId> = &workspace.grid.columns[target_col];
    assert(workspace.grid@.columns[target_col as int] == target@);

    // Single-window column: no choice to make.
    if target.len() == 1 {
        return Some(target[0]);
    }
    if workspace.columns_mode != ColumnsMode::Grid {
        // The memory counts when it points at a window still in the
        // column.
        if let Some(id) = beside.remembered {
            proof {
                lemma_first_index(target@, is_id(id));
            }
            match index_of(target, id) {
                Some(index) => {
                    assert(target@[index as int] == id);
                    return Some(id);
                },
                None => {
                    assert forall|i: int| 0 <= i < target@.len() implies target@[i] != id by {
                        assert(!is_id(id)(target@[i]));
                    }
                },
            }
        }
    }
    straight_across(&beside.overlaps, target)
}

/// The spatially adjacent window within a workspace's column grid, to be
/// focused.
///
/// `Up`/`Down` moves to the window above/below in the same column.
/// `Left`/`Right` moves straight across in `Grid` mode, and to the
/// adjacent column's most recently focused window in the master-stack
/// modes (see [`neighbour_in_column`]). At a column edge there is none, so
/// the caller can fall through to cross-monitor focus.
pub fn focus_in_columns(
    window: WindowContainer,
    direction: Direction,
    workspace: Option<&Workspace>,
    beside: &Beside,
    default: &MonitorDefault,
) -> (target: Result<Option<ContainerId>, ColumnsError>)
    ensures
        ({
            let expected = focus_outcome(
                window,
                match workspace {
                    Some(workspace) => Some(*workspace),
                    None => None,
                },
                direction,
                beside.overlaps@,
                beside.remembered,
                *default,
            );
            match target {
                Ok(target) => expected == Ok::<Option<ContainerId>, ColumnsFault>(target),
                Err(error) => expected == Err::<Option<ContainerId>, ColumnsFault>(error@),
            }
        }),
{
    let id: ContainerId = match window {
        WindowContainer::TilingWindow(id) => id,
        WindowContainer::NonTilingWindow(_) => return Ok(None),
    };
    let workspace: &Workspace = match workspace {
        Some(workspace) => workspace,
        None => return Ok(None),
    };
    match effective_columns(workspace, default) {
        Ok(Some(_)) => {},
        Ok(None) => return Ok(None),
        Err(error) => return Err(error),
    }
    let (col, row) = match workspace.grid.find(id) {
        Some(place) => place,
        None => return Ok(None),
    };
    proof {
        lemma_located(workspace.grid@.columns, id);
        assert(workspace.grid@.columns[col as int] == workspace.grid.columns@[col as int]@);
    }
    match direction {
        Direction::Up | Direction::Down => match adjacent_row(
            workspace.grid.columns[col].len(),
            row,
            direction,
        ) {
            Some(next) => Ok(Some(workspace.grid.columns[col][next])),
            None => Ok(None),
        },
        Direction::Left | Direction::Right => match adjacent_column(
            &workspace.grid,
            col,
            direction,
        ) {
            Some(side) => Ok(neighbour_in_column(workspace, side, beside)),
            // Edge of grid: let the caller handle cross-monitor focus.
            None => Ok(None),
        },
    }
}

} // verus!
