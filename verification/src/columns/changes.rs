//! What holds of the commands that rearrange windows.

use crate::columns::{
    grid_applies, others, reapply_after, reapply_outcome, ColumnsFault, MonitorDefault,
};
use crate::columns::deal::{dealer, distributed, grid_columns, round_robin, stacked};
use crate::columns::grid::{lemma_located, lemma_reading_len, located, total, Layout};
use crate::columns::laws::{
    effective_kinds, lemma_some_center, same_settings, shows, the_center_window_is_live,
};
use crate::columns::master::{center_col, center_of, focused};
use crate::columns::places::{
    filled, lemma_all_visible, lemma_located_at, lemma_one_place, lemma_same_windows,
    lemma_visible_widths, visible,
};
use crate::columns::reading::{
    depth, lemma_pooled_contains, lemma_pooled_update, lemma_reading_contains, pooled,
    reading_order, row_upto, rows_upto,
};
use crate::columns::rearrange::{
    centering, focus_target, kept_widths, lemma_level_row, measures_beside, move_target, moved_in,
    neighbour, partner, rotation, side_col, swapped, top_of, Moved, Rearranged,
};
use crate::columns::ring::{
    a_full_turn_brings_each_window_once, a_full_turn_restores, lemma_distinct_loop, lemma_flat,
    lemma_flat_index, lemma_rotated_loop, lemma_same_shape, lemma_slot, loop_around,
    no_shorter_turn_restores, rotated_times, rotating_back_restores, rotation_keeps_every_window,
    rotation_keeps_the_shape, rotations_to, slot_of,
};
use crate::columns::spec::{center_count, ColumnKind};
use crate::state::{
    first_index, is_id, lemma_first_index, ColumnsMode, ContainerId, Direction, WindowContainer,
    Workspace,
};
use vstd::prelude::*;

verus! {

/// Whether two grids have as many columns, with as many windows in each.
pub open spec fn same_shape(a: Seq<Seq<ContainerId>>, b: Seq<Seq<ContainerId>>) -> bool {
    &&& a.len() == b.len()
    &&& forall|col: int| 0 <= col < a.len() ==> (#[trigger] a[col]).len() == b[col].len()
}

/// Whether there is a window at a place.
pub open spec fn occupied(columns: Seq<Seq<ContainerId>>, place: (int, int)) -> bool {
    0 <= place.0 < columns.len() && 0 <= place.1 < columns[place.0].len()
}

/// Whether a workspace is as it was, but for the rearrangement, which it
/// shows and has recorded.
pub open spec fn carries_out(before: Workspace, change: Rearranged, after: Workspace) -> bool {
    &&& same_settings(before, after)
    &&& shows(after, change.layout)
    &&& after.master_window == match change.master {
        Some(master) => Some(master),
        None => before.master_window,
    }
}

/// Another window at a place takes the place of the one there.
proof fn lemma_pooled_place(
    columns: Seq<Seq<ContainerId>>,
    place: (int, int),
    window: ContainerId,
)
    requires
        occupied(columns, place),
    ensures
        pooled(columns.update(place.0, columns[place.0].update(place.1, window))) == pooled(
            columns,
        ).insert(window).remove(columns[place.0][place.1]),
{
    broadcast use vstd::seq_lib::group_to_multiset_ensures;

    let column = columns[place.0];
    let gone = column[place.1];
    let other = column.update(place.1, window);
    let before = pooled(columns);
    let after = pooled(columns.update(place.0, other));
    lemma_pooled_update(columns, place.0, other);
    vstd::seq_lib::to_multiset_update(column, place.1, window);
    assert(column.to_multiset().count(gone) > 0) by {
        assert(column.contains(gone));
    }
    assert(before.count(gone) > 0) by {
        lemma_pooled_contains(columns, gone);
        assert(columns[place.0].contains(gone));
    }
    assert forall|w: ContainerId|
        #[trigger] after.count(w) == before.insert(window).remove(gone).count(w) by {
        assert(after.add(column.to_multiset()).count(w) == before.add(
            column.to_multiset().insert(window).remove(gone),
        ).count(w));
    }
    assert(after =~= before.insert(window).remove(gone));
}

/// Swapping the windows at two places keeps every window and the shape of
/// the columns, and moves no other window.
pub proof fn swapping_keeps_every_window(
    columns: Seq<Seq<ContainerId>>,
    one: (int, int),
    two: (int, int),
)
    requires
        occupied(columns, one),
        occupied(columns, two),
    ensures
        pooled(swapped(columns, one, two)) == pooled(columns),
        same_shape(swapped(columns, one, two), columns),
        swapped(columns, one, two)[one.0][one.1] == columns[two.0][two.1],
        swapped(columns, one, two)[two.0][two.1] == columns[one.0][one.1],
        forall|place: (int, int)|
            occupied(columns, place) && place != one && place != two ==> (#[trigger] swapped(
                columns,
                one,
                two,
            )[place.0][place.1]) == columns[place.0][place.1],
{
    let first = columns[one.0][one.1];
    let second = columns[two.0][two.1];
    let half = columns.update(one.0, columns[one.0].update(one.1, second));
    lemma_pooled_place(columns, one, second);
    lemma_pooled_place(half, two, first);
    assert(half[two.0][two.1] == second);
    lemma_pooled_contains(columns, first);
    assert(columns[one.0].contains(first));
    assert(pooled(swapped(columns, one, two)) =~= pooled(columns));
}

/// Swapping two windows again restores the columns.
pub proof fn swapping_twice_restores(
    columns: Seq<Seq<ContainerId>>,
    one: (int, int),
    two: (int, int),
)
    requires
        occupied(columns, one),
        occupied(columns, two),
    ensures
        swapped(swapped(columns, one, two), one, two) == columns,
        swapped(swapped(columns, one, two), two, one) == columns,
{
    let there = swapped(columns, one, two);
    assert(swapped(there, one, two) =~~= columns);
    assert(swapped(there, two, one) =~~= columns);
}

/// A rearrangement of the same shape is shown as it is, and with the same
/// windows what shows it is well-formed again.
pub proof fn a_rearrangement_keeps_the_grid_well_formed(
    workspace: Workspace,
    change: Rearranged,
    after: Workspace,
)
    requires
        workspace.grid@.well_formed(),
        same_shape(change.layout.columns, workspace.grid@.columns),
        pooled(change.layout.columns) == pooled(workspace.grid@.columns),
        carries_out(workspace, change, after),
    ensures
        after.grid@.columns == change.layout.columns,
        after.grid@.well_formed(),
{
    let columns = change.layout.columns;
    assert forall|col: int| 0 <= col < columns.len() implies (#[trigger] columns[col]).len() > 0 by {
        assert(workspace.grid@.columns[col].len() > 0);
    }
    lemma_all_visible(columns);
    lemma_visible_widths(columns, change.layout.widths);
    lemma_same_windows(workspace.grid@.columns, columns);
}

/// The master is at its place in the center column.
proof fn lemma_center(workspace: Workspace)
    requires
        total(workspace.grid@.columns) > 0,
    ensures
        center_col(workspace) is Some,
        occupied(workspace.grid@.columns, (center_col(workspace)->0, 0int)),
{
    the_center_window_is_live(workspace);
}

/// Rotating keeps the number of columns, the number of windows in each,
/// every window, and the widths.
pub proof fn rotation_changes_occupants_only(
    workspace: Workspace,
    ccw: bool,
    change: Rearranged,
)
    requires
        rotation(workspace, ccw) == Some(change),
    ensures
        same_shape(change.layout.columns, workspace.grid@.columns),
        pooled(change.layout.columns) == pooled(workspace.grid@.columns),
        change.layout.widths == kept_widths(workspace.grid),
        workspace.grid@.well_formed() ==> change.layout.widths.len()
            == change.layout.columns.len(),
        change.master is Some,
{
    lemma_center(workspace);
    let center = center_col(workspace)->0;
    rotation_keeps_the_shape(workspace.grid@.columns, center, ccw);
    rotation_keeps_every_window(workspace.grid@.columns, center, ccw);
    let columns = change.layout.columns;
    assert(columns[center].len() == workspace.grid@.columns[center].len());
}

/// Rotating one way and then the other restores the columns and, where the
/// center holds the master on top, the master.
pub proof fn rotating_there_and_back_restores(
    workspace: Workspace,
    ccw: bool,
    there: Rearranged,
    between: Workspace,
)
    requires
        workspace.grid@.well_formed(),
        rotation(workspace, ccw) == Some(there),
        carries_out(workspace, there, between),
    ensures
        rotation(between, !ccw) matches Some(back) && back.layout.columns == workspace.grid@.columns
            && back.master == top_of(workspace.grid@.columns, center_col(workspace)),
{
    let columns = workspace.grid@.columns;
    lemma_center(workspace);
    let center = center_col(workspace)->0;
    lemma_center_of_rotated(workspace, ccw, there, between);
    lemma_same_shape(there.layout.columns, columns, center);
    rotating_back_restores(columns, center, ccw);
}

/// A rotation that was carried out keeps the center column, as the master
/// is the window that came into it.
proof fn lemma_center_of_rotated(
    workspace: Workspace,
    ccw: bool,
    change: Rearranged,
    after: Workspace,
)
    requires
        workspace.grid@.well_formed(),
        rotation(workspace, ccw) == Some(change),
        carries_out(workspace, change, after),
    ensures
        after.grid@.columns == change.layout.columns,
        after.grid@.well_formed(),
        same_shape(after.grid@.columns, workspace.grid@.columns),
        center_col(after) == center_col(workspace),
{
    let columns = change.layout.columns;
    lemma_center(workspace);
    let center = center_col(workspace)->0;
    rotation_changes_occupants_only(workspace, ccw, change);
    a_rearrangement_keeps_the_grid_well_formed(workspace, change, after);
    assert(columns[center].len() == workspace.grid@.columns[center].len());
    lemma_located_at(columns, center, 0);
    let master = columns[center][0];
    assert(columns[center].contains(master));
    lemma_reading_contains(columns, master);
}

/// Rotating keeps the focused slot focused: the window that comes to the
/// place of the focused window gains focus.
pub proof fn rotation_keeps_the_focused_slot(
    workspace: Workspace,
    ccw: bool,
    change: Rearranged,
    id: ContainerId,
    place: (int, int),
)
    requires
        workspace.grid@.well_formed(),
        rotation(workspace, ccw) == Some(change),
        focused(workspace) == Some(id),
        located(workspace.grid@.columns, id) == Some(place),
    ensures
        change.focus == Some(change.layout.columns[place.0][place.1]),
{
    let columns = workspace.grid@.columns;
    let there = change.layout.columns;
    lemma_center(workspace);
    let center = center_col(workspace)->0;
    lemma_located(columns, id);
    lemma_same_windows(columns, columns);
    lemma_distinct_loop(columns, center);
    lemma_slot(columns, center, place.0, place.1);
    let slots = loop_around(columns, center);
    let slot = slot_of(columns, center, place.0, place.1);
    lemma_first_index(slots, is_id(id));
    assert(is_id(id)(slots[slot]));
    assert(first_index(slots, is_id(id)) == Some(slot));

    lemma_rotated_loop(columns, center, ccw);
    lemma_same_shape(there, columns, place.0);
    assert(there[place.0].len() == columns[place.0].len());
    lemma_slot(there, center, place.0, place.1);
}

/// Whether a workspace is another one after a rotation that was shown,
/// recorded and focused.
pub open spec fn rotates_to(before: Workspace, after: Workspace, ccw: bool) -> bool {
    match rotation(before, ccw) {
        Some(change) => carries_out(before, change, after) && focused(after) == change.focus,
        None => false,
    }
}

/// Whether each of the workspaces is the one before it after a rotation.
pub open spec fn rotates(runs: Seq<Workspace>, ccw: bool) -> bool {
    forall|k: int| 0 <= k < runs.len() - 1 ==> rotates_to(#[trigger] runs[k], runs[k + 1], ccw)
}

/// After a number of rotations of a workspace its columns are rotated as
/// often, and the slot that was focused still is.
proof fn lemma_runs(runs: Seq<Workspace>, ccw: bool, place: (int, int), k: int)
    requires
        runs.len() > 0,
        runs[0].grid@.well_formed(),
        rotates(runs, ccw),
        occupied(runs[0].grid@.columns, place),
        focused(runs[0]) == Some(runs[0].grid@.columns[place.0][place.1]),
        0 <= k < runs.len(),
    ensures
        runs[k].grid@.well_formed(),
        same_shape(runs[k].grid@.columns, runs[0].grid@.columns),
        center_col(runs[k]) == center_col(runs[0]),
        center_col(runs[0]) matches Some(center) && 0 <= center < runs[0].grid@.columns.len()
            && runs[k].grid@.columns == rotated_times(
            runs[0].grid@.columns,
            center,
            ccw,
            k as nat,
        ),
        focused(runs[k]) == Some(runs[k].grid@.columns[place.0][place.1]),
    decreases k,
{
    let columns = runs[0].grid@.columns;
    lemma_flat_index(columns, place.0, place.1);
    lemma_flat(columns);
    lemma_center(runs[0]);
    if k > 0 {
        lemma_runs(runs, ccw, place, k - 1);
        let before = runs[k - 1];
        assert(rotates_to(before, runs[k], ccw));
        let change = rotation(before, ccw)->0;
        lemma_center_of_rotated(before, ccw, change, runs[k]);
        assert(before.grid@.columns[place.0].len() == columns[place.0].len());
        lemma_located_at(before.grid@.columns, place.0, place.1);
        rotation_keeps_the_focused_slot(
            before,
            ccw,
            change,
            before.grid@.columns[place.0][place.1],
            place,
        );
        assert forall|col: int| 0 <= col < columns.len() implies (
        #[trigger] runs[k].grid@.columns[col]).len() == columns[col].len() by {
            assert(before.grid@.columns[col].len() == columns[col].len());
        }
    }
}

/// Rotating as often as there are windows, always the same way, restores
/// the columns, and no fewer rotations do. The slot that was focused stays
/// focused throughout, and each window is focused in it exactly once: this
/// one after `at` rotations.
pub proof fn rotating_cycles_every_window_through_the_focused_slot(
    runs: Seq<Workspace>,
    ccw: bool,
    place: (int, int),
    window: ContainerId,
) -> (at: int)
    requires
        runs.len() > 0,
        runs[0].grid@.well_formed(),
        runs.len() == total(runs[0].grid@.columns) + 1,
        rotates(runs, ccw),
        occupied(runs[0].grid@.columns, place),
        focused(runs[0]) == Some(runs[0].grid@.columns[place.0][place.1]),
        reading_order(runs[0].grid@.columns).contains(window),
    ensures
        runs.last().grid@.columns == runs[0].grid@.columns,
        forall|k: int|
            0 < k < runs.len() - 1 ==> (#[trigger] runs[k]).grid@.columns
                != runs[0].grid@.columns,
        forall|k: int|
            0 <= k < runs.len() ==> focused(#[trigger] runs[k]) == Some(
                runs[k].grid@.columns[place.0][place.1],
            ),
        1 <= at < runs.len(),
        forall|k: int|
            1 <= k < runs.len() ==> (focused(#[trigger] runs[k]) == Some(window) <==> k == at),
{
    let columns = runs[0].grid@.columns;
    let count = total(columns) as int;
    lemma_runs(runs, ccw, place, 0);
    let center = center_col(runs[0])->0;
    lemma_flat_index(columns, place.0, place.1);
    lemma_flat(columns);
    lemma_same_windows(columns, columns);
    lemma_runs(runs, ccw, place, count);
    a_full_turn_restores(columns, center, ccw);
    assert forall|k: int| 0 < k < runs.len() - 1 implies (#[trigger] runs[k]).grid@.columns
        != columns by {
        lemma_runs(runs, ccw, place, k);
        no_shorter_turn_restores(columns, center, ccw, k as nat);
    }
    assert forall|k: int| 0 <= k < runs.len() implies focused(#[trigger] runs[k]) == Some(
        runs[k].grid@.columns[place.0][place.1],
    ) by {
        lemma_runs(runs, ccw, place, k);
    }
    lemma_reading_contains(columns, window);
    lemma_located(columns, window);
    let home = located(columns, window)->0;
    lemma_slot(columns, center, home.0, home.1);
    lemma_slot(columns, center, place.0, place.1);
    let from = slot_of(columns, center, home.0, home.1);
    let slot = slot_of(columns, center, place.0, place.1);
    let at = rotations_to(count, from, slot, ccw);
    assert forall|k: int| 1 <= k < runs.len() implies (focused(#[trigger] runs[k]) == Some(window)
        <==> k == at) by {
        lemma_runs(runs, ccw, place, k);
        let there = runs[k].grid@.columns;
        assert(there[place.0].len() == columns[place.0].len());
        lemma_same_shape(there, columns, place.0);
        lemma_slot(there, center, place.0, place.1);
        a_full_turn_brings_each_window_once(columns, center, ccw, from, slot, k);
    }
    a_full_turn_brings_each_window_once(columns, center, ccw, from, slot, 1);
    at
}

/// Centering again swaps the two windows back: the columns are restored,
/// and the window that was in the center comes back to it, as the master
/// and with the focus.
pub proof fn centering_again_toggles_back(
    workspace: Workspace,
    last_centered_out: Option<ContainerId>,
    there: Rearranged,
    between: Workspace,
)
    requires
        workspace.grid@.well_formed(),
        centering(workspace, last_centered_out) == Some(there),
        carries_out(workspace, there, between),
        focused(between) == there.focus,
    ensures
        centering(between, there.centered_out) matches Some(back) && back.layout.columns
            == workspace.grid@.columns && back.master == there.centered_out && back.focus
            == there.centered_out && back.centered_out == there.master,
{
    let columns = workspace.grid@.columns;
    lemma_center(workspace);
    let center = center_col(workspace)->0;
    let place = partner(workspace, center, last_centered_out)->0;
    lemma_partner(workspace, center, last_centered_out);
    let entering = columns[place.0][place.1];
    let leaving = columns[center][0];
    let turned_to = swapped(columns, (center, 0int), place);
    swapping_keeps_every_window(columns, (center, 0int), place);
    swapping_twice_restores(columns, (center, 0int), place);
    a_rearrangement_keeps_the_grid_well_formed(workspace, there, between);
    assert(turned_to[center].len() == columns[center].len());
    assert(turned_to[place.0].len() == columns[place.0].len());
    lemma_located_at(turned_to, center, 0);
    lemma_located_at(turned_to, place.0, place.1);
    assert(turned_to[center].contains(entering));
    lemma_reading_contains(turned_to, entering);
    assert(center_col(between) == Some(center));
    lemma_reading_len(turned_to);
    lemma_reading_len(columns);
    lemma_same_shape(turned_to, columns, 0);
}

/// The window that swaps with the center is in the grid.
proof fn lemma_partner(workspace: Workspace, center: int, last_centered_out: Option<ContainerId>)
    ensures
        partner(workspace, center, last_centered_out) matches Some(place) ==> occupied(
            workspace.grid@.columns,
            place,
        ),
{
    if let Some(id) = focused(workspace) {
        lemma_located(workspace.grid@.columns, id);
    }
    if let Some(id) = last_centered_out {
        lemma_located(workspace.grid@.columns, id);
    }
}

/// Centering keeps the number of columns, the number of windows in each,
/// every window, and the widths; the window that comes in is at the top of the center.
pub proof fn centering_changes_occupants_only(
    workspace: Workspace,
    last_centered_out: Option<ContainerId>,
    change: Rearranged,
)
    requires
        centering(workspace, last_centered_out) == Some(change),
    ensures
        same_shape(change.layout.columns, workspace.grid@.columns),
        pooled(change.layout.columns) == pooled(workspace.grid@.columns),
        change.layout.widths == kept_widths(workspace.grid),
        workspace.grid@.well_formed() ==> change.layout.widths.len()
            == change.layout.columns.len(),
        change.master == top_of(change.layout.columns, center_col(workspace)),
{
    lemma_center(workspace);
    let center = center_col(workspace)->0;
    let place = partner(workspace, center, last_centered_out)->0;
    lemma_partner(workspace, center, last_centered_out);
    swapping_keeps_every_window(workspace.grid@.columns, (center, 0int), place);
    let columns = change.layout.columns;
    assert(columns[center].len() == workspace.grid@.columns[center].len());
}

/// Moving a window within the columns keeps the number of columns, the
/// number of windows in each, every window, and the widths. So a center
/// column of one window stays one. Focus follows the window.
pub proof fn moving_changes_occupants_only(
    workspace: Workspace,
    id: ContainerId,
    direction: Direction,
    overlaps: Seq<u32>,
    change: Rearranged,
)
    requires
        moved_in(workspace, id, direction, overlaps) == Moved::Rearrange(change),
        measures_beside(
            WindowContainer::TilingWindow(id),
            workspace,
            direction,
            overlaps,
        ),
    ensures
        same_shape(change.layout.columns, workspace.grid@.columns),
        pooled(change.layout.columns) == pooled(workspace.grid@.columns),
        change.layout.widths == kept_widths(workspace.grid),
        workspace.grid@.well_formed() ==> change.layout.widths.len()
            == change.layout.columns.len(),
        change.master == top_of(change.layout.columns, center_col(workspace)),
        change.focus == Some(id),
{
    let columns = workspace.grid@.columns;
    lemma_located(columns, id);
    let place = located(columns, id)->0;
    lemma_level_row(overlaps);
    let target = move_target(columns, place, direction, overlaps)->0->0;
    assert(occupied(columns, target));
    swapping_keeps_every_window(columns, place, target);
}

/// Moving a window up and then down, or down and then up, restores the
/// columns.
pub proof fn moving_up_and_down_restores(
    workspace: Workspace,
    id: ContainerId,
    up: bool,
    overlaps: Seq<u32>,
    there: Rearranged,
    between: Workspace,
)
    requires
        workspace.grid@.well_formed(),
        moved_in(
            workspace,
            id,
            if up {
                Direction::Up
            } else {
                Direction::Down
            },
            overlaps,
        ) == Moved::Rearrange(there),
        carries_out(workspace, there, between),
    ensures
        moved_in(
            between,
            id,
            if up {
                Direction::Down
            } else {
                Direction::Up
            },
            overlaps,
        ) matches Moved::Rearrange(back) && back.layout.columns == workspace.grid@.columns,
{
    let columns = workspace.grid@.columns;
    lemma_located(columns, id);
    let place = located(columns, id)->0;
    let target = (place.0, if up { place.1 - 1 } else { place.1 + 1 });
    let turned_to = swapped(columns, place, target);
    swapping_keeps_every_window(columns, place, target);
    swapping_twice_restores(columns, place, target);
    a_rearrangement_keeps_the_grid_well_formed(workspace, there, between);
    assert(turned_to[place.0].len() == columns[place.0].len());
    lemma_located_at(turned_to, target.0, target.1);
}

/// A tiling window in the columns is always moved, within the columns or
/// out of the workspace.
pub proof fn a_window_in_the_columns_is_moved(
    workspace: Workspace,
    id: ContainerId,
    direction: Direction,
    overlaps: Seq<u32>,
)
    requires
        workspace.grid@.well_formed(),
        located(workspace.grid@.columns, id) is Some,
        measures_beside(WindowContainer::TilingWindow(id), workspace, direction, overlaps),
    ensures
        !(moved_in(workspace, id, direction, overlaps) is NotHandled),
{
    let columns = workspace.grid@.columns;
    lemma_located(columns, id);
    lemma_level_row(overlaps);
    let place = located(columns, id)->0;
    if let Some(col) = side_col(columns.len() as int, place.0, direction) {
        assert(columns[col].len() > 0);
    }
}

/// A sideways focus out of a column that is not at the edge finds a window
/// of the column beside it, unless that column is empty.
pub proof fn a_sideways_focus_finds_a_window(
    workspace: Workspace,
    id: ContainerId,
    place: (int, int),
    direction: Direction,
    col: int,
    overlaps: Seq<u32>,
    remembered: Option<ContainerId>,
)
    requires
        located(workspace.grid@.columns, id) == Some(place),
        side_col(workspace.grid@.columns.len() as int, place.0, direction) == Some(col),
        overlaps.len() == workspace.grid@.columns[col].len(),
        workspace.grid@.columns[col].len() > 0,
    ensures
        focus_target(workspace, place, direction, overlaps, remembered) matches Some(window)
            && workspace.grid@.columns[col].contains(window),
{
    lemma_level_row(overlaps);
}

/// In grid mode a sideways focus goes straight across, whatever was
/// focused last in the column.
pub proof fn grid_focus_ignores_the_memory(
    target: Seq<ContainerId>,
    overlaps: Seq<u32>,
    one: Option<ContainerId>,
    two: Option<ContainerId>,
)
    ensures
        neighbour(ColumnsMode::Grid, target, overlaps, one) == neighbour(
            ColumnsMode::Grid,
            target,
            overlaps,
            two,
        ),
{
}

/// In a master-stack mode a sideways focus into a stack returns to the
/// window that was focused last in it, while it is there.
pub proof fn stack_focus_returns_to_the_window_left(
    mode: ColumnsMode,
    target: Seq<ContainerId>,
    overlaps: Seq<u32>,
    window: ContainerId,
)
    requires
        mode != ColumnsMode::Grid,
        target.contains(window),
    ensures
        neighbour(mode, target, overlaps, Some(window)) == Some(window),
{
}

/// The columns with each window replaced by another.
spec fn renamed(
    columns: Seq<Seq<ContainerId>>,
    name: spec_fn(ContainerId) -> ContainerId,
) -> Seq<Seq<ContainerId>> {
    Seq::new(columns.len(), |col: int| columns[col].map_values(name))
}

/// A row of renamed columns.
proof fn lemma_row_of_renamed(
    columns: Seq<Seq<ContainerId>>,
    name: spec_fn(ContainerId) -> ContainerId,
    row: int,
    col: int,
)
    requires
        0 <= row,
        0 <= col <= columns.len(),
    ensures
        row_upto(renamed(columns, name), row, col) == row_upto(columns, row, col).map_values(name),
    decreases col,
{
    if col > 0 {
        lemma_row_of_renamed(columns, name, row, col - 1);
    }
    assert(row_upto(renamed(columns, name), row, col) =~= row_upto(columns, row, col).map_values(
        name,
    ));
}

/// The first rows of renamed columns.
proof fn lemma_rows_of_renamed(
    columns: Seq<Seq<ContainerId>>,
    name: spec_fn(ContainerId) -> ContainerId,
    row: int,
)
    ensures
        rows_upto(renamed(columns, name), row) == rows_upto(columns, row).map_values(name),
    decreases row,
{
    if row > 0 {
        lemma_rows_of_renamed(columns, name, row - 1);
        lemma_row_of_renamed(columns, name, row - 1, columns.len() as int);
    }
    assert(rows_upto(renamed(columns, name), row) =~= rows_upto(columns, row).map_values(name));
}

/// Renamed columns are as deep.
proof fn lemma_depth_of_renamed(
    columns: Seq<Seq<ContainerId>>,
    name: spec_fn(ContainerId) -> ContainerId,
)
    ensures
        depth(renamed(columns, name)) == depth(columns),
    decreases columns.len(),
{
    if columns.len() > 0 {
        lemma_depth_of_renamed(columns.drop_last(), name);
        assert(renamed(columns, name).drop_last() =~= renamed(columns.drop_last(), name));
    }
}

/// Renamed columns read as the renamed windows.
proof fn lemma_reading_of_renamed(
    columns: Seq<Seq<ContainerId>>,
    name: spec_fn(ContainerId) -> ContainerId,
)
    ensures
        reading_order(renamed(columns, name)) == reading_order(columns).map_values(name),
{
    lemma_depth_of_renamed(columns, name);
    lemma_rows_of_renamed(columns, name, depth(columns) as int);
}

/// Renamed windows are dealt as the windows are.
proof fn lemma_stacked_of_renamed(
    place: spec_fn(nat) -> int,
    windows: Seq<ContainerId>,
    name: spec_fn(ContainerId) -> ContainerId,
    col: int,
)
    ensures
        stacked(place, windows.map_values(name), col) == stacked(place, windows, col).map_values(
            name,
        ),
    decreases windows.len(),
{
    if windows.len() > 0 {
        lemma_stacked_of_renamed(place, windows.drop_last(), name, col);
        assert(windows.map_values(name).drop_last() =~= windows.drop_last().map_values(name));
    }
    assert(stacked(place, windows.map_values(name), col) =~= stacked(
        place,
        windows,
        col,
    ).map_values(name));
}

/// A distribution of renamed windows is the renamed distribution.
proof fn lemma_distribution_of_renamed(
    kinds: Seq<ColumnKind>,
    master: ContainerId,
    rest: Seq<ContainerId>,
    name: spec_fn(ContainerId) -> ContainerId,
)
    ensures
        distributed(kinds, name(master), rest.map_values(name)) == renamed(
            distributed(kinds, master, rest),
            name,
        ),
{
    let there = distributed(kinds, name(master), rest.map_values(name));
    let here = renamed(distributed(kinds, master, rest), name);
    assert forall|col: int| 0 <= col < kinds.len() implies #[trigger] there[col] == here[col] by {
        lemma_stacked_of_renamed(dealer(kinds), rest, name, col);
        assert(there[col] =~= here[col]);
    }
    assert(there =~= here);
}

/// A grid of renamed windows is the renamed grid.
proof fn lemma_grid_of_renamed(
    count: nat,
    windows: Seq<ContainerId>,
    name: spec_fn(ContainerId) -> ContainerId,
)
    ensures
        grid_columns(count, windows.map_values(name)) == renamed(
            grid_columns(count, windows),
            name,
        ),
{
    let there = grid_columns(count, windows.map_values(name));
    let here = renamed(grid_columns(count, windows), name);
    assert forall|col: int| 0 <= col < count implies #[trigger] there[col] == here[col] by {
        lemma_stacked_of_renamed(round_robin(count), windows, name, col);
    }
    assert(there =~= here);
}

/// Renaming keeps which columns are shown.
proof fn lemma_visible_of_renamed(
    columns: Seq<Seq<ContainerId>>,
    name: spec_fn(ContainerId) -> ContainerId,
)
    ensures
        visible(renamed(columns, name)) == renamed(visible(columns), name),
    decreases columns.len(),
{
    reveal(Seq::filter);
    if columns.len() > 0 {
        lemma_visible_of_renamed(columns.drop_last(), name);
        assert(renamed(columns, name).drop_last() =~= renamed(columns.drop_last(), name));
    }
    assert(visible(renamed(columns, name)) =~= renamed(visible(columns), name));
}

/// The windows other than a renamed one are the other windows, renamed.
proof fn lemma_others_of_renamed(
    windows: Seq<ContainerId>,
    master: ContainerId,
    name: spec_fn(ContainerId) -> ContainerId,
)
    requires
        forall|i: int|
            0 <= i < windows.len() && name(#[trigger] windows[i]) == name(master) ==> windows[i]
                == master,
    ensures
        others(windows.map_values(name), name(master)) == others(windows, master).map_values(name),
    decreases windows.len(),
{
    reveal(Seq::filter);
    if windows.len() > 0 {
        let head = windows.drop_last();
        assert forall|i: int|
            0 <= i < head.len() && name(#[trigger] head[i]) == name(master) implies head[i]
            == master by {
            assert(windows[i] == head[i]);
        }
        lemma_others_of_renamed(head, master, name);
        assert(windows.map_values(name).drop_last() =~= head.map_values(name));
        assert(windows[windows.len() - 1] == windows.last());
    }
    assert(others(windows.map_values(name), name(master)) =~= others(windows, master).map_values(
        name,
    ));
}

/// The window that has come to the place of another.
spec fn successor(
    from: Seq<Seq<ContainerId>>,
    to: Seq<Seq<ContainerId>>,
) -> spec_fn(ContainerId) -> ContainerId {
    |window: ContainerId|
        match located(from, window) {
            Some(place) => to[place.0][place.1],
            None => window,
        }
}

/// Columns of the same shape are the columns with each window replaced by
/// its successor, and no two windows have the same successor.
proof fn lemma_successor(
    from: Seq<Seq<ContainerId>>,
    to: Seq<Seq<ContainerId>>,
    one: ContainerId,
    two: ContainerId,
)
    requires
        same_shape(to, from),
        reading_order(from).no_duplicates(),
        reading_order(to).no_duplicates(),
    ensures
        renamed(from, successor(from, to)) == to,
        reading_order(from).contains(one) && reading_order(from).contains(two) && successor(
            from,
            to,
        )(one) == successor(from, to)(two) ==> one == two,
{
    let name = successor(from, to);
    assert forall|col: int| 0 <= col < from.len() implies #[trigger] renamed(from, name)[col]
        == to[col] by {
        assert(to[col].len() == from[col].len());
        assert forall|row: int| 0 <= row < from[col].len() implies renamed(from, name)[col][row]
            == to[col][row] by {
            lemma_located_at(from, col, row);
        }
        assert(renamed(from, name)[col] =~= to[col]);
    }
    assert(renamed(from, name) =~= to);
    if reading_order(from).contains(one) && reading_order(from).contains(two) && name(one) == name(
        two,
    ) {
        lemma_reading_contains(from, one);
        lemma_reading_contains(from, two);
        lemma_located(from, one);
        lemma_located(from, two);
        let a = located(from, one)->0;
        let b = located(from, two)->0;
        assert(to[a.0].len() == from[a.0].len());
        assert(to[b.0].len() == from[b.0].len());
        lemma_one_place(to, a, b);
    }
}

/// In the columns of a spec the master is alone in its column.
proof fn lemma_master_is_alone(
    kinds: Seq<ColumnKind>,
    master: ContainerId,
    rest: Seq<ContainerId>,
    shown: Seq<Seq<ContainerId>>,
)
    requires
        center_count(kinds) == 1,
        shown == visible(distributed(kinds, master, rest)),
        reading_order(shown).no_duplicates(),
    ensures
        located(shown, master) matches Some(place) && shown[place.0] == seq![master],
{
    let columns = distributed(kinds, master, rest);
    let center = lemma_some_center(kinds);
    columns.lemma_filter_contains(filled(), center);
    let col = choose|col: int| 0 <= col < shown.len() && shown[col] == columns[center];
    assert(columns[center] =~= seq![master]);
    assert(shown[col][0] == master);
    lemma_located_at(shown, col, 0);
}

/// A rearrangement that keeps the shape of the columns and the windows,
/// and designates the window at the top of the center column, survives the
/// next reapply of the columns: the very same columns come out, with the
/// same widths, and the same window stays the master.
pub proof fn a_rearrangement_survives_the_next_reapply(
    workspace: Workspace,
    default: MonitorDefault,
    layout: Layout,
    after: Workspace,
)
    requires
        workspace.grid@.well_formed(),
        reapply_outcome(workspace, None, default) == Ok::<Option<Layout>, ColumnsFault>(
            Some(layout),
        ),
        shows(workspace, layout),
        same_settings(workspace, after),
        after.grid@.well_formed(),
        same_shape(after.grid@.columns, workspace.grid@.columns),
        pooled(after.grid@.columns) == pooled(workspace.grid@.columns),
        after.master_window == top_of(after.grid@.columns, center_col(workspace)),
    ensures
        reapply_outcome(after, None, default) matches Ok(Some(again)) && shows(after, again)
            && again.widths == layout.widths,
        reapply_after(after, None, default) == after,
{
    let from = workspace.grid@.columns;
    let to = after.grid@.columns;
    let name = successor(from, to);
    let windows = reading_order(from);
    let again = reapply_outcome(after, None, default)->Ok_0->0;
    lemma_visible_widths(again.columns, again.widths);
    lemma_reading_of_renamed(from, name);
    lemma_same_shape(to, from, 0);
    lemma_reading_len(from);
    lemma_reading_len(to);
    lemma_visible_of_renamed(layout.columns, name);
    if grid_applies(workspace) {
        lemma_successor(from, to, windows[0], windows[0]);
        lemma_grid_of_renamed(2, windows, name);
    } else {
        let kinds = effective_kinds(workspace, default)->0;
        let master = center_of(workspace)->0;
        let rest = others(windows, master);
        the_center_window_is_live(workspace);
        lemma_successor(from, to, master, master);
        lemma_master_is_alone(kinds, master, rest, from);
        let place = located(from, master)->0;
        lemma_located(from, master);
        assert(to[place.0].len() == from[place.0].len());
        assert(after.master_window == Some(name(master)));
        let at = choose|i: int| 0 <= i < windows.len() && windows[i] == master;
        assert(reading_order(to)[at] == name(master));
        assert(reading_order(to).contains(name(master)));
        assert forall|i: int|
            0 <= i < windows.len() && name(#[trigger] windows[i]) == name(master) implies windows[i]
            == master by {
            assert(windows.contains(windows[i]));
            lemma_successor(from, to, windows[i], master);
        }
        lemma_others_of_renamed(windows, master, name);
        lemma_distribution_of_renamed(kinds, master, rest, name);
        assert(after.with_master(Some(name(master))) == after);
    }
}

/// A rotation survives the next reapply.
pub proof fn a_rotation_survives_the_next_reapply(
    workspace: Workspace,
    default: MonitorDefault,
    layout: Layout,
    ccw: bool,
    change: Rearranged,
    after: Workspace,
)
    requires
        workspace.grid@.well_formed(),
        reapply_outcome(workspace, None, default) == Ok::<Option<Layout>, ColumnsFault>(
            Some(layout),
        ),
        shows(workspace, layout),
        rotation(workspace, ccw) == Some(change),
        carries_out(workspace, change, after),
    ensures
        reapply_outcome(after, None, default) matches Ok(Some(again)) && shows(after, again)
            && again.widths == layout.widths,
        reapply_after(after, None, default) == after,
{
    lemma_center(workspace);
    rotation_changes_occupants_only(workspace, ccw, change);
    a_rearrangement_keeps_the_grid_well_formed(workspace, change, after);
    a_rearrangement_survives_the_next_reapply(workspace, default, layout, after);
}

/// A swap into the center survives the next reapply.
pub proof fn a_centering_survives_the_next_reapply(
    workspace: Workspace,
    default: MonitorDefault,
    layout: Layout,
    last_centered_out: Option<ContainerId>,
    change: Rearranged,
    after: Workspace,
)
    requires
        workspace.grid@.well_formed(),
        reapply_outcome(workspace, None, default) == Ok::<Option<Layout>, ColumnsFault>(
            Some(layout),
        ),
        shows(workspace, layout),
        centering(workspace, last_centered_out) == Some(change),
        carries_out(workspace, change, after),
    ensures
        reapply_outcome(after, None, default) matches Ok(Some(again)) && shows(after, again)
            && again.widths == layout.widths,
        reapply_after(after, None, default) == after,
{
    centering_changes_occupants_only(workspace, last_centered_out, change);
    a_rearrangement_keeps_the_grid_well_formed(workspace, change, after);
    a_rearrangement_survives_the_next_reapply(workspace, default, layout, after);
}

/// A directional move within the columns survives the next reapply.
pub proof fn a_move_survives_the_next_reapply(
    workspace: Workspace,
    default: MonitorDefault,
    layout: Layout,
    id: ContainerId,
    direction: Direction,
    overlaps: Seq<u32>,
    change: Rearranged,
    after: Workspace,
)
    requires
        workspace.grid@.well_formed(),
        reapply_outcome(workspace, None, default) == Ok::<Option<Layout>, ColumnsFault>(
            Some(layout),
        ),
        shows(workspace, layout),
        moved_in(workspace, id, direction, overlaps) == Moved::Rearrange(change),
        measures_beside(WindowContainer::TilingWindow(id), workspace, direction, overlaps),
        carries_out(workspace, change, after),
    ensures
        reapply_outcome(after, None, default) matches Ok(Some(again)) && shows(after, again)
            && again.widths == layout.widths,
        reapply_after(after, None, default) == after,
{
    moving_changes_occupants_only(workspace, id, direction, overlaps, change);
    a_rearrangement_keeps_the_grid_well_formed(workspace, change, after);
    lemma_located(workspace.grid@.columns, id);
    let place = located(workspace.grid@.columns, id)->0;
    lemma_flat_index(workspace.grid@.columns, place.0, place.1);
    lemma_flat(workspace.grid@.columns);
    lemma_center(workspace);
    assert(change.layout.columns[center_col(workspace)->0].len()
        == workspace.grid@.columns[center_col(workspace)->0].len());
    a_rearrangement_survives_the_next_reapply(workspace, default, layout, after);
}

} // verus!
