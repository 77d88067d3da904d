//! What the commands that rearrange windows and move the focus do, place by
//! place.

use crate::columns::{ColumnsFault, MonitorDefault};
use crate::columns::changes::{
    occupied, rotation_keeps_the_focused_slot, same_shape, swapping_keeps_every_window,
};
use crate::columns::grid::{
    lemma_located, lemma_reading_len, located, total, ColumnWidth, Grid, Layout,
};
use crate::columns::laws::the_center_window_is_live;
use crate::columns::master::{
    center_col, center_of, center_width, focused, is_tiling, measured, repaired,
};
use crate::columns::places::lemma_located_at;
use crate::columns::reading::{
    lemma_read_at, lemma_reading_contains, read_before, reading_goes_row_by_row,
    reading_keeps_every_window, reading_order,
};
use crate::columns::rearrange::{
    centering, focus_outcome, lemma_level_row, level_row, move_after, move_outcome, rotation,
    swapped, Moved, Rearranged,
};
use crate::columns::ring::{
    lemma_left_of_grows, lemma_loop_around, lemma_rotated_loop, lemma_same_shape, lemma_slot,
    loop_around, rotated, slot_of, turned,
};
use crate::state::{
    first_index, is_id, lemma_first_index, lemma_first_index_is, lemma_first_index_none,
    ColumnsMode, Container, ContainerId, Direction, WindowContainer, Workspace,
};
use vstd::prelude::*;

verus! {

/// Whether a window is at a place of the columns.
pub open spec fn stands_at(
    columns: Seq<Seq<ContainerId>>,
    place: (int, int),
    id: ContainerId,
) -> bool {
    occupied(columns, place) && columns[place.0][place.1] == id
}

/// Whether a window is in the columns.
pub open spec fn stands(columns: Seq<Seq<ContainerId>>, id: ContainerId) -> bool {
    exists|place: (int, int)| #[trigger] stands_at(columns, place, id)
}

/// Whether `id` is the workspace's master: the designated window if it is in
/// the columns, otherwise the one at the top left.
pub open spec fn is_master(workspace: Workspace, id: ContainerId) -> bool {
    if workspace.master_window matches Some(designated) && stands(
        workspace.grid@.columns,
        designated,
    ) {
        workspace.master_window == Some(id)
    } else {
        stands_at(workspace.grid@.columns, (0, 0), id)
    }
}

/// Whether `id` is the tiling window most recently focused.
pub open spec fn is_focused(workspace: Workspace, id: ContainerId) -> bool {
    exists|at: int|
        0 <= at < workspace.focus_order@.len() && #[trigger] workspace.focus_order@[at]
            == Container::TilingWindow(id) && forall|k: int|
            0 <= k < at ==> (#[trigger] workspace.focus_order@[k]) is Other
}

/// Whether row `row` overlaps the most, as the topmost of several.
pub open spec fn is_level(overlaps: Seq<u32>, row: int) -> bool {
    &&& 0 <= row < overlaps.len()
    &&& forall|i: int| 0 <= i < overlaps.len() ==> #[trigger] overlaps[i] <= overlaps[row]
    &&& forall|i: int| 0 <= i < row ==> #[trigger] overlaps[i] < overlaps[row]
}

/// Whether a workspace has columns: its own, or those of its monitor.
pub open spec fn has_columns(workspace: Workspace, default: MonitorDefault) -> bool {
    workspace.columns is Some || default matches MonitorDefault::Matched(Some(_))
}

/// Whether a workspace has no columns, for want of a rule or by a rule
/// without columns.
pub open spec fn has_no_columns(workspace: Workspace, default: MonitorDefault) -> bool {
    workspace.columns is None && (default is Unconfigured || default matches MonitorDefault::Matched(
        None,
    ))
}

/// Whether the columns are others but for the windows at two places, which
/// have changed places.
pub open spec fn exchanged(
    before: Seq<Seq<ContainerId>>,
    after: Seq<Seq<ContainerId>>,
    one: (int, int),
    two: (int, int),
) -> bool {
    &&& same_shape(after, before)
    &&& after[one.0][one.1] == before[two.0][two.1]
    &&& after[two.0][two.1] == before[one.0][one.1]
    &&& forall|col: int, row: int|
        #![trigger after[col][row]]
        occupied(before, (col, row)) && (col, row) != one && (col, row) != two
            ==> after[col][row] == before[col][row]
}

/// Whether each column keeps its width.
pub open spec fn keeps_widths(grid: Grid, layout: Layout) -> bool {
    &&& layout.widths.len() == grid.widths.len()
    &&& forall|col: int|
        0 <= col < grid.widths.len() ==> #[trigger] layout.widths[col] == ColumnWidth::Kept(
            grid.widths[col],
        )
}

/// The master is the designated window where that is in the columns, and
/// otherwise the window at the top left; there is none only where there is
/// no window.
pub proof fn the_master_is_the_designated_or_the_first(workspace: Workspace, id: ContainerId)
    requires
        workspace.grid@.well_formed(),
    ensures
        center_of(workspace) == Some(id) <==> is_master(workspace, id),
        center_of(workspace) is None <==> workspace.grid@.columns.len() == 0,
{
    let columns = workspace.grid@.columns;
    lemma_first_read(columns);
    if let Some(designated) = workspace.master_window {
        lemma_stands(columns, designated);
    }
}

/// A window is read where it stands.
pub proof fn lemma_stands(columns: Seq<Seq<ContainerId>>, id: ContainerId)
    ensures
        stands(columns, id) <==> reading_order(columns).contains(id),
{
    lemma_reading_contains(columns, id);
    if stands(columns, id) {
        let place = choose|place: (int, int)| #[trigger] stands_at(columns, place, id);
        assert(columns[place.0].contains(id));
    }
    if reading_order(columns).contains(id) {
        let col = choose|col: int| 0 <= col < columns.len() && (#[trigger] columns[col]).contains(id);
        let row = choose|row: int| 0 <= row < columns[col].len() && columns[col][row] == id;
        assert(stands_at(columns, (col, row), id));
    }
}

/// The window at the top left is read first.
pub proof fn lemma_first_read(columns: Seq<Seq<ContainerId>>)
    requires
        forall|col: int| 0 <= col < columns.len() ==> (#[trigger] columns[col]).len() > 0,
    ensures
        columns.len() == 0 <==> reading_order(columns).len() == 0,
        columns.len() > 0 ==> reading_order(columns)[0] == columns[0][0],
{
    if columns.len() > 0 {
        lemma_read_at(columns, 0, 0);
        assert(read_before(columns, 0, 0) == 0);
    } else {
        lemma_reading_len(columns);
    }
}

/// The center column is the one that holds the master.
pub proof fn the_center_column_holds_the_master(
    workspace: Workspace,
    master: ContainerId,
    place: (int, int),
)
    requires
        workspace.grid@.well_formed(),
        is_master(workspace, master),
        stands_at(workspace.grid@.columns, place, master),
    ensures
        center_col(workspace) == Some(place.0),
{
    the_master_is_the_designated_or_the_first(workspace, master);
    lemma_located_at(workspace.grid@.columns, place.0, place.1);
}

/// Looking the center up designates the master, and changes nothing else.
pub proof fn looking_the_center_up_designates_the_master(
    workspace: Workspace,
    master: ContainerId,
)
    requires
        workspace.grid@.well_formed(),
        is_master(workspace, master),
    ensures
        repaired(workspace).master_window == Some(master),
        repaired(workspace) == (Workspace { master_window: Some(master), ..workspace }),
        measured(workspace) == if total(workspace.grid@.columns) >= 2 {
            Workspace { master_window: Some(master), ..workspace }
        } else {
            workspace
        },
{
    the_master_is_the_designated_or_the_first(workspace, master);
}

/// The center width is the width of the column that holds the master, and
/// there is none with fewer than two windows.
pub proof fn the_center_width_is_that_of_the_master_column(
    workspace: Workspace,
    master: ContainerId,
    place: (int, int),
)
    requires
        workspace.grid@.well_formed(),
        is_master(workspace, master),
        stands_at(workspace.grid@.columns, place, master),
    ensures
        center_width(workspace) == if total(workspace.grid@.columns) >= 2 {
            Some(workspace.grid@.widths[place.0])
        } else {
            None
        },
{
    the_center_column_holds_the_master(workspace, master, place);
}

/// The focused window is the tiling window that comes first in the focus
/// order; there is none only where no descendant is a tiling window.
pub proof fn the_focused_window_comes_first(workspace: Workspace, id: ContainerId)
    ensures
        focused(workspace) == Some(id) <==> is_focused(workspace, id),
        focused(workspace) is None <==> forall|k: int|
            0 <= k < workspace.focus_order@.len() ==> (#[trigger] workspace.focus_order@[k])
                is Other,
{
    let order = workspace.focus_order@;
    lemma_first_index(order, is_tiling());
    if is_focused(workspace, id) {
        let at = choose|at: int|
            0 <= at < order.len() && #[trigger] order[at] == Container::TilingWindow(id)
                && forall|k: int| 0 <= k < at ==> (#[trigger] order[k]) is Other;
        assert forall|k: int| 0 <= k < at implies !is_tiling()(#[trigger] order[k]) by {
            assert(order[k] is Other);
        }
        lemma_first_index_is(order, is_tiling(), at);
    }
    if forall|k: int| 0 <= k < order.len() ==> (#[trigger] order[k]) is Other {
        assert forall|k: int| 0 <= k < order.len() implies !is_tiling()(#[trigger] order[k]) by {
            assert(order[k] is Other);
        }
        lemma_first_index_none(order, is_tiling());
    }
    if let Some(at) = first_index(order, is_tiling()) {
        assert(is_tiling()(order[at]));
        assert forall|k: int| 0 <= k < at implies (#[trigger] order[k]) is Other by {
            assert(!is_tiling()(order[k]));
        }
        assert(order[at] == Container::TilingWindow(order[at]->TilingWindow_0));
    } else {
        assert forall|k: int| 0 <= k < order.len() implies (#[trigger] order[k]) is Other by {
            assert(!is_tiling()(order[k]));
        }
    }
}

/// The level row is the one that overlaps the most, as the topmost of
/// several; there is none only where there is no row.
pub proof fn the_level_row_overlaps_the_most(overlaps: Seq<u32>, row: int)
    ensures
        level_row(overlaps) == Some(row) <==> is_level(overlaps, row),
        level_row(overlaps) is None <==> overlaps.len() == 0,
{
    lemma_level_row(overlaps);
    if is_level(overlaps, row) {
        let other = level_row(overlaps)->0;
        assert(overlaps[row] <= overlaps[other]);
        assert(overlaps[other] <= overlaps[row]);
    }
}

/// What a move that swaps two windows comes to.
pub open spec fn swaps(
    workspace: Workspace,
    outcome: Result<Moved, ColumnsFault>,
    id: ContainerId,
    place: (int, int),
    target: (int, int),
    center: int,
) -> bool {
    &&& outcome matches Ok(Moved::Rearrange(change))
    &&& exchanged(workspace.grid@.columns, change.layout.columns, place, target)
    &&& stands_at(change.layout.columns, target, id)
    &&& keeps_widths(workspace.grid@, change.layout)
    &&& change.master == Some(change.layout.columns[center][0])
    &&& change.centered_out is None
    &&& change.focus == Some(id)
}

/// A sideways move that has a column beside it swaps the window with the one
/// in the row of that column that overlaps it the most, as the topmost of
/// several. Every other window stays, the widths stay, the window at the top
/// of the center column becomes the master, and the focus follows the
/// window.
pub proof fn a_sideways_move_swaps_with_the_level_window(
    workspace: Workspace,
    id: ContainerId,
    place: (int, int),
    right: bool,
    overlaps: Seq<u32>,
    row: int,
    default: MonitorDefault,
    master: ContainerId,
    home: (int, int),
)
    requires
        workspace.grid@.well_formed(),
        has_columns(workspace, default),
        stands_at(workspace.grid@.columns, place, id),
        is_master(workspace, master),
        stands_at(workspace.grid@.columns, home, master),
        ({
            let side = if right {
                place.0 + 1
            } else {
                place.0 - 1
            };
            &&& 0 <= side < workspace.grid@.columns.len()
            &&& overlaps.len() == workspace.grid@.columns[side].len()
        }),
        is_level(overlaps, row),
    ensures
        swaps(
            workspace,
            move_outcome(
                WindowContainer::TilingWindow(id),
                workspace,
                if right {
                    Direction::Right
                } else {
                    Direction::Left
                },
                overlaps,
                default,
            ),
            id,
            place,
            (
                if right {
                    place.0 + 1
                } else {
                    place.0 - 1
                },
                row,
            ),
            home.0,
        ),
{
    let columns = workspace.grid@.columns;
    let target = (
        if right {
            place.0 + 1
        } else {
            place.0 - 1
        },
        row,
    );
    lemma_located_at(columns, place.0, place.1);
    the_center_column_holds_the_master(workspace, master, home);
    the_level_row_overlaps_the_most(overlaps, row);
    lemma_exchanged(columns, place, target, home.0);
}

/// A move up or down swaps the window with the one above or below it in its
/// column. Every other window stays, the widths stay, the window at the top
/// of the center column becomes the master, and the focus follows the
/// window.
pub proof fn a_move_up_or_down_swaps_with_the_next_window(
    workspace: Workspace,
    id: ContainerId,
    place: (int, int),
    down: bool,
    overlaps: Seq<u32>,
    default: MonitorDefault,
    master: ContainerId,
    home: (int, int),
)
    requires
        workspace.grid@.well_formed(),
        has_columns(workspace, default),
        stands_at(workspace.grid@.columns, place, id),
        is_master(workspace, master),
        stands_at(workspace.grid@.columns, home, master),
        ({
            let row = if down {
                place.1 + 1
            } else {
                place.1 - 1
            };
            0 <= row < workspace.grid@.columns[place.0].len()
        }),
    ensures
        swaps(
            workspace,
            move_outcome(
                WindowContainer::TilingWindow(id),
                workspace,
                if down {
                    Direction::Down
                } else {
                    Direction::Up
                },
                overlaps,
                default,
            ),
            id,
            place,
            (
                place.0,
                if down {
                    place.1 + 1
                } else {
                    place.1 - 1
                },
            ),
            home.0,
        ),
{
    let columns = workspace.grid@.columns;
    let target = (
        place.0,
        if down {
            place.1 + 1
        } else {
            place.1 - 1
        },
    );
    lemma_located_at(columns, place.0, place.1);
    the_center_column_holds_the_master(workspace, master, home);
    lemma_exchanged(columns, place, target, home.0);
}

/// Swapped columns are exchanged columns.
proof fn lemma_exchanged(
    columns: Seq<Seq<ContainerId>>,
    one: (int, int),
    two: (int, int),
    center: int,
)
    requires
        occupied(columns, one),
        occupied(columns, two),
        0 <= center < columns.len(),
        columns[center].len() > 0,
    ensures
        exchanged(columns, swapped(columns, one, two), one, two),
        occupied(swapped(columns, one, two), two),
        swapped(columns, one, two)[center].len() > 0,
{
    let after = swapped(columns, one, two);
    swapping_keeps_every_window(columns, one, two);
    assert(after[two.0].len() == columns[two.0].len());
    assert(after[center].len() == columns[center].len());
    assert forall|col: int, row: int|
        #![trigger after[col][row]]
        occupied(columns, (col, row)) && (col, row) != one && (col, row) != two implies
        after[col][row] == columns[col][row] by {
        let place = (col, row);
        assert(after[place.0][place.1] == columns[place.0][place.1]);
    }
}

/// Whether a place is at the edge of the columns in a direction.
pub open spec fn at_edge(
    columns: Seq<Seq<ContainerId>>,
    place: (int, int),
    direction: Direction,
) -> bool {
    match direction {
        Direction::Left => place.0 == 0,
        Direction::Right => place.0 == columns.len() - 1,
        Direction::Up => place.1 == 0,
        Direction::Down => place.1 == columns[place.0].len() - 1,
    }
}

/// At the edge of the columns a move takes the window out of the workspace,
/// and a focus finds no window.
pub proof fn at_the_edge_a_window_leaves(
    workspace: Workspace,
    id: ContainerId,
    place: (int, int),
    direction: Direction,
    overlaps: Seq<u32>,
    remembered: Option<ContainerId>,
    default: MonitorDefault,
)
    requires
        workspace.grid@.well_formed(),
        has_columns(workspace, default),
        stands_at(workspace.grid@.columns, place, id),
        at_edge(workspace.grid@.columns, place, direction),
    ensures
        move_outcome(
            WindowContainer::TilingWindow(id),
            workspace,
            direction,
            overlaps,
            default,
        ) == Ok::<Moved, ColumnsFault>(Moved::LeaveWorkspace),
        focus_outcome(
            WindowContainer::TilingWindow(id),
            Some(workspace),
            direction,
            overlaps,
            remembered,
            default,
        ) == Ok::<Option<ContainerId>, ColumnsFault>(None),
{
    lemma_located_at(workspace.grid@.columns, place.0, place.1);
}

/// A window that does not take part in the layout, that is not in the
/// columns, or whose workspace has no columns is neither moved nor left by
/// the focus.
pub proof fn a_window_outside_the_columns_is_not_handled(
    window: WindowContainer,
    workspace: Workspace,
    direction: Direction,
    overlaps: Seq<u32>,
    remembered: Option<ContainerId>,
    default: MonitorDefault,
)
    requires
        ({
            ||| window is NonTilingWindow
            ||| has_no_columns(workspace, default)
            ||| has_columns(workspace, default) && (window matches WindowContainer::TilingWindow(id)
                && !stands(workspace.grid@.columns, id))
        }),
    ensures
        move_outcome(window, workspace, direction, overlaps, default) == Ok::<
            Moved,
            ColumnsFault,
        >(Moved::NotHandled),
        move_after(window, workspace, default) == workspace,
        focus_outcome(window, Some(workspace), direction, overlaps, remembered, default) == Ok::<
            Option<ContainerId>,
            ColumnsFault,
        >(None),
        focus_outcome(window, None, direction, overlaps, remembered, default) == Ok::<
            Option<ContainerId>,
            ColumnsFault,
        >(None),
{
    if let WindowContainer::TilingWindow(id) = window {
        lemma_located(workspace.grid@.columns, id);
        if let Some(place) = located(workspace.grid@.columns, id) {
            assert(stands_at(workspace.grid@.columns, place, id));
        }
    }
}

/// Without columns of its own, a workspace whose monitor is missing or
/// cannot be measured neither moves a tiling window nor its focus, and says
/// why. Nothing changes.
pub proof fn a_missing_monitor_refuses_moves_and_focus(
    workspace: Workspace,
    id: ContainerId,
    direction: Direction,
    overlaps: Seq<u32>,
    remembered: Option<ContainerId>,
    measured: bool,
)
    requires
        workspace.columns is None,
    ensures
        ({
            let window = WindowContainer::TilingWindow(id);
            let default = if measured {
                MonitorDefault::NoMonitor
            } else {
                MonitorDefault::NoMonitorRect
            };
            let fault = if measured {
                ColumnsFault::NoMonitor
            } else {
                ColumnsFault::NoMonitorRect
            };
            &&& move_outcome(window, workspace, direction, overlaps, default) == Err::<
                Moved,
                ColumnsFault,
            >(fault)
            &&& move_after(window, workspace, default) == workspace
            &&& focus_outcome(
                window,
                Some(workspace),
                direction,
                overlaps,
                remembered,
                default,
            ) == Err::<Option<ContainerId>, ColumnsFault>(fault)
        }),
{
}

/// A move that finds the window designates the master, and changes nothing
/// else before it is carried out.
pub proof fn a_move_designates_the_master(
    workspace: Workspace,
    id: ContainerId,
    master: ContainerId,
    default: MonitorDefault,
)
    requires
        workspace.grid@.well_formed(),
        has_columns(workspace, default),
        stands(workspace.grid@.columns, id),
        is_master(workspace, master),
    ensures
        move_after(WindowContainer::TilingWindow(id), workspace, default) == (Workspace {
            master_window: Some(master),
            ..workspace
        }),
{
    let columns = workspace.grid@.columns;
    let place = choose|place: (int, int)| #[trigger] stands_at(columns, place, id);
    lemma_located_at(columns, place.0, place.1);
    looking_the_center_up_designates_the_master(workspace, master);
}

/// A focus up or down goes to the window above or below in the same column.
pub proof fn a_focus_up_or_down_goes_to_the_next_window(
    workspace: Workspace,
    id: ContainerId,
    place: (int, int),
    down: bool,
    overlaps: Seq<u32>,
    remembered: Option<ContainerId>,
    default: MonitorDefault,
)
    requires
        workspace.grid@.well_formed(),
        has_columns(workspace, default),
        stands_at(workspace.grid@.columns, place, id),
        ({
            let row = if down {
                place.1 + 1
            } else {
                place.1 - 1
            };
            0 <= row < workspace.grid@.columns[place.0].len()
        }),
    ensures
        focus_outcome(
            WindowContainer::TilingWindow(id),
            Some(workspace),
            if down {
                Direction::Down
            } else {
                Direction::Up
            },
            overlaps,
            remembered,
            default,
        ) == Ok::<Option<ContainerId>, ColumnsFault>(
            Some(
                workspace.grid@.columns[place.0][if down {
                    place.1 + 1
                } else {
                    place.1 - 1
                }],
            ),
        ),
{
    lemma_located_at(workspace.grid@.columns, place.0, place.1);
}

/// A sideways focus goes straight across: to the window in the row of the
/// column beside it that overlaps the most, as the topmost of several. That
/// is so in grid mode, whatever was focused last there, and in the
/// master-stack modes where no window of that column is remembered.
pub proof fn a_sideways_focus_goes_straight_across(
    workspace: Workspace,
    id: ContainerId,
    place: (int, int),
    right: bool,
    overlaps: Seq<u32>,
    row: int,
    remembered: Option<ContainerId>,
    default: MonitorDefault,
)
    requires
        workspace.grid@.well_formed(),
        has_columns(workspace, default),
        stands_at(workspace.grid@.columns, place, id),
        ({
            let side = if right {
                place.0 + 1
            } else {
                place.0 - 1
            };
            &&& 0 <= side < workspace.grid@.columns.len()
            &&& overlaps.len() == workspace.grid@.columns[side].len()
            &&& workspace.columns_mode == ColumnsMode::Grid || remembered is None
                || !workspace.grid@.columns[side].contains(remembered->0)
        }),
        is_level(overlaps, row),
    ensures
        focus_outcome(
            WindowContainer::TilingWindow(id),
            Some(workspace),
            if right {
                Direction::Right
            } else {
                Direction::Left
            },
            overlaps,
            remembered,
            default,
        ) == Ok::<Option<ContainerId>, ColumnsFault>(
            Some(
                workspace.grid@.columns[if right {
                    place.0 + 1
                } else {
                    place.0 - 1
                }][row],
            ),
        ),
{
    lemma_located_at(workspace.grid@.columns, place.0, place.1);
    the_level_row_overlaps_the_most(overlaps, row);
}

/// In a master-stack mode a sideways focus returns to the window that was
/// focused last in the column beside it, while it is there.
pub proof fn a_sideways_focus_returns_to_the_remembered_window(
    workspace: Workspace,
    id: ContainerId,
    place: (int, int),
    right: bool,
    overlaps: Seq<u32>,
    window: ContainerId,
    default: MonitorDefault,
)
    requires
        workspace.grid@.well_formed(),
        workspace.columns_mode != ColumnsMode::Grid,
        has_columns(workspace, default),
        stands_at(workspace.grid@.columns, place, id),
        ({
            let side = if right {
                place.0 + 1
            } else {
                place.0 - 1
            };
            &&& 0 <= side < workspace.grid@.columns.len()
            &&& workspace.grid@.columns[side].contains(window)
        }),
    ensures
        focus_outcome(
            WindowContainer::TilingWindow(id),
            Some(workspace),
            if right {
                Direction::Right
            } else {
                Direction::Left
            },
            overlaps,
            Some(window),
            default,
        ) == Ok::<Option<ContainerId>, ColumnsFault>(Some(window)),
{
    lemma_located_at(workspace.grid@.columns, place.0, place.1);
}

/// What a change that swaps a window into the center comes to.
pub open spec fn centers(
    workspace: Workspace,
    change: Option<Rearranged>,
    id: ContainerId,
    place: (int, int),
    center: int,
) -> bool {
    &&& change matches Some(change)
    &&& exchanged(workspace.grid@.columns, change.layout.columns, (center, 0), place)
    &&& change.layout.columns[center][0] == id
    &&& change.layout.columns[place.0][place.1] == workspace.grid@.columns[center][0]
    &&& keeps_widths(workspace.grid@, change.layout)
    &&& change.master == Some(id)
    &&& change.focus == Some(id)
    &&& change.centered_out == Some(workspace.grid@.columns[center][0])
}

/// Centering swaps the focused window with the one at the top of the center
/// column, unless it is that window: the focused window becomes the master
/// and keeps the focus, the old center takes its place and is remembered,
/// and every other window stays.
pub proof fn centering_brings_the_focused_window_in(
    workspace: Workspace,
    last_centered_out: Option<ContainerId>,
    id: ContainerId,
    place: (int, int),
    master: ContainerId,
    home: (int, int),
)
    requires
        workspace.grid@.well_formed(),
        is_master(workspace, master),
        stands_at(workspace.grid@.columns, home, master),
        is_focused(workspace, id),
        stands_at(workspace.grid@.columns, place, id),
        place != (home.0, 0int),
    ensures
        centers(workspace, centering(workspace, last_centered_out), id, place, home.0),
{
    let columns = workspace.grid@.columns;
    the_center_column_holds_the_master(workspace, master, home);
    the_focused_window_comes_first(workspace, id);
    lemma_located_at(columns, place.0, place.1);
    lemma_located_at(columns, home.0, 0);
    lemma_two_places(columns, place, (home.0, 0int));
    lemma_exchanged(columns, (home.0, 0int), place, home.0);
    if columns[home.0][0] == id {
        lemma_located_at(columns, home.0, 0);
    }
}

/// Centering the window that is at the top of the center column swaps it
/// with the one that was last swapped out, if that is somewhere else in the
/// columns: that window becomes the master and gains focus.
pub proof fn centering_the_center_brings_the_last_window_back(
    workspace: Workspace,
    out: ContainerId,
    place: (int, int),
    master: ContainerId,
    home: (int, int),
)
    requires
        workspace.grid@.well_formed(),
        is_master(workspace, master),
        stands_at(workspace.grid@.columns, home, master),
        is_focused(workspace, workspace.grid@.columns[home.0][0]),
        stands_at(workspace.grid@.columns, place, out),
        place != (home.0, 0int),
    ensures
        centers(workspace, centering(workspace, Some(out)), out, place, home.0),
{
    let columns = workspace.grid@.columns;
    the_center_column_holds_the_master(workspace, master, home);
    the_focused_window_comes_first(workspace, columns[home.0][0]);
    lemma_located_at(columns, place.0, place.1);
    lemma_two_places(columns, place, (home.0, 0int));
    lemma_exchanged(columns, (home.0, 0int), place, home.0);
}

/// Centering does nothing where no tiling window is focused, where the
/// focused window is not in the columns, or where it is at the top of the
/// center column and the window last swapped out is not somewhere else in
/// the columns.
pub proof fn centering_without_a_partner_does_nothing(
    workspace: Workspace,
    last_centered_out: Option<ContainerId>,
    id: ContainerId,
    master: ContainerId,
    home: (int, int),
)
    requires
        workspace.grid@.well_formed(),
        is_master(workspace, master),
        stands_at(workspace.grid@.columns, home, master),
        ({
            let top = workspace.grid@.columns[home.0][0];
            ||| forall|k: int|
                0 <= k < workspace.focus_order@.len() ==> (#[trigger] workspace.focus_order@[k])
                    is Other
            ||| is_focused(workspace, id) && !stands(workspace.grid@.columns, id)
            ||| is_focused(workspace, top) && (last_centered_out matches Some(out) ==> out == top
                || !stands(workspace.grid@.columns, out))
        }),
    ensures
        centering(workspace, last_centered_out) is None,
{
    let columns = workspace.grid@.columns;
    let top = columns[home.0][0];
    the_center_column_holds_the_master(workspace, master, home);
    the_focused_window_comes_first(workspace, id);
    the_focused_window_comes_first(workspace, top);
    lemma_located_at(columns, home.0, 0);
    assert(stands_at(columns, (home.0, 0), top));
    lemma_located(columns, id);
    if let Some(place) = located(columns, id) {
        assert(stands_at(columns, place, id));
    }
    if let Some(out) = last_centered_out {
        lemma_located(columns, out);
        if let Some(place) = located(columns, out) {
            assert(stands_at(columns, place, out));
        }
    }
}

/// With fewer than two windows neither centering nor rotating does anything.
pub proof fn a_single_window_is_not_rearranged(
    workspace: Workspace,
    last_centered_out: Option<ContainerId>,
    ccw: bool,
)
    requires
        reading_order(workspace.grid@.columns).len() < 2,
    ensures
        centering(workspace, last_centered_out) is None,
        rotation(workspace, ccw) is None,
        measured(workspace) == workspace,
{
    lemma_reading_len(workspace.grid@.columns);
}

/// Two places make two windows.
proof fn lemma_two_places(columns: Seq<Seq<ContainerId>>, one: (int, int), two: (int, int))
    requires
        occupied(columns, one),
        occupied(columns, two),
        one != two,
    ensures
        total(columns) >= 2,
{
    lemma_reading_len(columns);
    if one.1 < two.1 || (one.1 == two.1 && one.0 < two.0) {
        let at = reading_goes_row_by_row(columns, one, two);
    } else {
        let at = reading_goes_row_by_row(columns, two, one);
    }
}

/// The place after another one, clockwise around column `center`: up the
/// columns left of it, each from the bottom to the top, then down the center
/// and the columns right of it, and from the bottom right to the bottom
/// left.
pub open spec fn clockwise(
    columns: Seq<Seq<ContainerId>>,
    center: int,
    place: (int, int),
) -> (int, int) {
    let (col, row) = place;
    if col < center {
        if row > 0 {
            (col, row - 1)
        } else if col + 1 < center {
            (col + 1, columns[col + 1].len() - 1)
        } else {
            (center, 0)
        }
    } else if row + 1 < columns[col].len() {
        (col, row + 1)
    } else if col + 1 < columns.len() {
        (col + 1, 0)
    } else if center > 0 {
        (0, columns[0].len() - 1)
    } else {
        (0, 0)
    }
}

/// Rotating brings each window to the next place clockwise around the
/// column of the master, and the other way round it brings the window there
/// back. The columns keep their lengths and widths, and the window that
/// comes to the top of the center column becomes the master.
pub proof fn rotating_moves_each_window_one_place_around(
    workspace: Workspace,
    ccw: bool,
    place: (int, int),
    master: ContainerId,
    home: (int, int),
)
    requires
        workspace.grid@.well_formed(),
        reading_order(workspace.grid@.columns).len() >= 2,
        is_master(workspace, master),
        stands_at(workspace.grid@.columns, home, master),
        occupied(workspace.grid@.columns, place),
    ensures
        ({
            let columns = workspace.grid@.columns;
            let next = clockwise(columns, home.0, place);
            &&& occupied(columns, next)
            &&& rotation(workspace, ccw) matches Some(change)
            &&& same_shape(change.layout.columns, columns)
            &&& if ccw {
                change.layout.columns[place.0][place.1] == columns[next.0][next.1]
            } else {
                change.layout.columns[next.0][next.1] == columns[place.0][place.1]
            }
            &&& keeps_widths(workspace.grid@, change.layout)
            &&& change.master == Some(change.layout.columns[home.0][0])
            &&& change.centered_out is None
        }),
{
    let columns = workspace.grid@.columns;
    let center = home.0;
    lemma_reading_len(columns);
    the_center_column_holds_the_master(workspace, master, home);
    lemma_clockwise(columns, center, place);
    lemma_rotated_place(columns, center, ccw, place);
    let there = rotated(columns, center, ccw);
    assert(there[center].len() == columns[center].len());
}

/// Rotating the columns moves each window to the next place clockwise, or
/// back.
proof fn lemma_rotated_place(
    columns: Seq<Seq<ContainerId>>,
    center: int,
    ccw: bool,
    place: (int, int),
)
    requires
        0 <= center < columns.len(),
        forall|col: int| 0 <= col < columns.len() ==> (#[trigger] columns[col]).len() > 0,
        occupied(columns, place),
    ensures
        ({
            let there = rotated(columns, center, ccw);
            let next = clockwise(columns, center, place);
            &&& same_shape(there, columns)
            &&& if ccw {
                there[place.0][place.1] == columns[next.0][next.1]
            } else {
                there[next.0][next.1] == columns[place.0][place.1]
            }
        }),
{
    let there = rotated(columns, center, ccw);
    let next = clockwise(columns, center, place);
    let slots = loop_around(columns, center);
    lemma_clockwise(columns, center, place);
    lemma_slot(columns, center, place.0, place.1);
    lemma_slot(columns, center, next.0, next.1);
    lemma_loop_around(columns, center);
    lemma_rotated_loop(columns, center, ccw);
    let from = slot_of(columns, center, place.0, place.1);
    let to = slot_of(columns, center, next.0, next.1);
    if ccw {
        lemma_slot_of_same_shape(there, columns, center, place);
        lemma_slot(there, center, place.0, place.1);
        assert(turned(slots, ccw)[from] == slots[to]);
    } else {
        lemma_slot_of_same_shape(there, columns, center, next);
        lemma_slot(there, center, next.0, next.1);
        assert(turned(slots, ccw)[to] == slots[from]);
    }
}

/// The slot of a place depends on the shape of the columns alone.
proof fn lemma_slot_of_same_shape(
    a: Seq<Seq<ContainerId>>,
    b: Seq<Seq<ContainerId>>,
    center: int,
    place: (int, int),
)
    requires
        same_shape(a, b),
        occupied(b, place),
    ensures
        occupied(a, place),
        slot_of(a, center, place.0, place.1) == slot_of(b, center, place.0, place.1),
{
    assert(a[place.0].len() == b[place.0].len());
    lemma_same_shape(a, b, place.0);
}

/// The next place clockwise is the next slot of the loop.
proof fn lemma_clockwise(columns: Seq<Seq<ContainerId>>, center: int, place: (int, int))
    requires
        0 <= center < columns.len(),
        forall|col: int| 0 <= col < columns.len() ==> (#[trigger] columns[col]).len() > 0,
        occupied(columns, place),
    ensures
        ({
            let next = clockwise(columns, center, place);
            let slot = slot_of(columns, center, place.0, place.1);
            &&& occupied(columns, next)
            &&& slot_of(columns, center, next.0, next.1) == if slot + 1 < total(columns) {
                slot + 1
            } else {
                0
            }
        }),
{
    let next = clockwise(columns, center, place);
    let last = columns.len() - 1;
    assert(columns[center].len() > 0);
    assert(columns[0].len() > 0);
    if place.0 < last {
        assert(columns[place.0 + 1].len() > 0);
    }
    lemma_left_of_grows(columns, place.0);
    lemma_left_of_grows(columns, last);
    assert(columns.take(columns.len() as int) =~= columns);
    assert(columns.take(0) =~= Seq::<Seq<ContainerId>>::empty());
    lemma_slot(columns, center, place.0, place.1);
    lemma_slot(columns, center, next.0, next.1);
}

/// After a rotation the window that came to the place of the focused one
/// gains focus; no window does where none of the columns' windows is
/// focused.
pub proof fn rotating_focuses_the_same_place(
    workspace: Workspace,
    ccw: bool,
    id: ContainerId,
    place: (int, int),
)
    requires
        workspace.grid@.well_formed(),
        reading_order(workspace.grid@.columns).len() >= 2,
    ensures
        rotation(workspace, ccw) matches Some(change) && {
            &&& is_focused(workspace, id) && stands_at(workspace.grid@.columns, place, id)
                ==> change.focus == Some(change.layout.columns[place.0][place.1])
            &&& is_focused(workspace, id) && !stands(workspace.grid@.columns, id) ==> change.focus
                is None
            &&& (forall|k: int|
                0 <= k < workspace.focus_order@.len() ==> (#[trigger] workspace.focus_order@[k])
                    is Other) ==> change.focus is None
        },
{
    let columns = workspace.grid@.columns;
    lemma_reading_len(columns);
    lemma_first_read(columns);
    the_center_window_is_live(workspace);
    let center = center_col(workspace)->0;
    let change = rotation(workspace, ccw)->0;
    the_focused_window_comes_first(workspace, id);
    if is_focused(workspace, id) {
        if stands_at(columns, place, id) {
            lemma_located_at(columns, place.0, place.1);
            rotation_keeps_the_focused_slot(workspace, ccw, change, id, place);
        }
        if !stands(columns, id) {
            lemma_stands(columns, id);
            lemma_loop_around(columns, center);
            let slots = loop_around(columns, center);
            lemma_first_index(slots, is_id(id));
            if let Some(at) = first_index(slots, is_id(id)) {
                lemma_read_is_looped(columns, center, id);
                assert(slots[at] == id);
                assert(slots.contains(id));
            }
        }
    }
}

/// The loop holds the windows of the columns.
proof fn lemma_read_is_looped(columns: Seq<Seq<ContainerId>>, center: int, id: ContainerId)
    requires
        0 <= center <= columns.len(),
    ensures
        loop_around(columns, center).contains(id) <==> reading_order(columns).contains(id),
{
    broadcast use vstd::seq_lib::group_to_multiset_ensures;

    lemma_loop_around(columns, center);
    reading_keeps_every_window(columns);
    assert(loop_around(columns, center).contains(id) <==> loop_around(
        columns,
        center,
    ).to_multiset().count(id) > 0);
    assert(reading_order(columns).contains(id) <==> reading_order(columns).to_multiset().count(id)
        > 0);
}

} // verus!
