//! The canonical window order and the master window.

use crate::columns::grid::{located, total};
use crate::columns::reading::reading_order;
use crate::state::{
    first_index, index_of, is_id, lemma_first_index, lemma_first_index_is, lemma_first_index_none,
    Container, ContainerId, Fraction, Workspace,
};
use vstd::prelude::*;

verus! {

/// The windows of a grid in canonical order, with `last` forced to the end
/// of it.
pub open spec fn ordered(columns: Seq<Seq<ContainerId>>, last: Option<ContainerId>) -> Seq<
    ContainerId,
> {
    let windows = reading_order(columns);
    match last {
        Some(last) => match first_index(windows, is_id(last)) {
            Some(index) => windows.remove(index).push(last),
            None => windows,
        },
        None => windows,
    }
}

/// The master among `windows`: the designated one when it is still one of
/// them, otherwise the first.
pub open spec fn master_of(designated: Option<ContainerId>, windows: Seq<ContainerId>) -> Option<
    ContainerId,
> {
    if designated is Some && windows.contains(designated->0) {
        designated
    } else if windows.len() > 0 {
        Some(windows[0])
    } else {
        None
    }
}

/// The window that occupies the `C` column of a workspace.
pub open spec fn center_of(workspace: Workspace) -> Option<ContainerId> {
    master_of(workspace.master_window, reading_order(workspace.grid@.columns))
}

/// A workspace whose designated master is one of its windows, as far as it
/// has windows.
pub open spec fn repaired(workspace: Workspace) -> Workspace {
    match center_of(workspace) {
        Some(master) => workspace.with_master(Some(master)),
        None => workspace,
    }
}

/// The column of the workspace's master.
pub open spec fn center_col(workspace: Workspace) -> Option<int> {
    match center_of(workspace) {
        Some(master) => match located(workspace.grid@.columns, master) {
            Some((col, row)) => Some(col),
            None => None,
        },
        None => None,
    }
}

/// The width of the master's column, in a workspace of at least two
/// windows.
pub open spec fn center_width(workspace: Workspace) -> Option<Fraction> {
    match center_col(workspace) {
        Some(col) => if total(workspace.grid@.columns) >= 2 && col < workspace.grid@.widths.len() {
            Some(workspace.grid@.widths[col])
        } else {
            None
        },
        None => None,
    }
}

/// A workspace whose center width was looked up.
pub open spec fn measured(workspace: Workspace) -> Workspace {
    if total(workspace.grid@.columns) >= 2 {
        repaired(workspace)
    } else {
        workspace
    }
}

/// The tiling windows among the containers.
pub open spec fn is_tiling() -> spec_fn(Container) -> bool {
    |container: Container| container is TilingWindow
}

/// The tiling window most recently focused.
pub open spec fn focused(workspace: Workspace) -> Option<ContainerId> {
    match first_index(workspace.focus_order@, is_tiling()) {
        Some(index) => Some(workspace.focus_order@[index]->TilingWindow_0),
        None => None,
    }
}

/// The workspace's tiling windows in canonical order, optionally forcing
/// `last` to the end of it.
///
/// Canonical order is the container tree's reading order. It is derived on
/// every read, never stored.
pub fn ordered_windows(workspace: &Workspace, last: Option<ContainerId>) -> (windows: Vec<
    ContainerId,
>)
    ensures
        windows@ == ordered(workspace.grid@.columns, last),
{
    let mut windows: Vec<ContainerId> = workspace.grid.windows();
    if let Some(last) = last {
        if let Some(index) = index_of(&windows, last) {
            proof {
                lemma_first_index(windows@, is_id(last));
            }
            let window: ContainerId = windows.remove(index);
            windows.push(window);
        }
    }
    windows
}

/// The workspace's master window: the occupant of the `C` column.
///
/// Resolution is deterministic and never consults focus, z-order or
/// recency:
/// 1. the explicitly designated master, when it is still one of `windows`;
/// 2. otherwise the first window in canonical order, which is then
///    recorded as the designated master.
///
/// The second applies only when the designation is missing or names a window
/// that has left the workspace, so closing the master promotes the
/// top-left window and the others keep their order.
pub fn resolve_master(workspace: &mut Workspace, windows: &Vec<ContainerId>) -> (master: Option<
    ContainerId,
>)
    ensures
        master == master_of(old(workspace).master_window, windows@),
        *final(workspace) == match master {
            Some(master) => old(workspace).with_master(Some(master)),
            None => *old(workspace),
        },
{
    if let Some(id) = workspace.master_window {
        proof {
            lemma_first_index(windows@, is_id(id));
        }
        match index_of(windows, id) {
            Some(index) => {
                assert(windows@[index as int] == id);
                return Some(id);
            },
            None => {
                assert forall|i: int| 0 <= i < windows@.len() implies windows@[i] != id by {
                    assert(!is_id(id)(windows@[i]));
                }
            },
        }
    }
    if windows.len() == 0 {
        return None;
    }
    let master: ContainerId = windows[0];
    workspace.master_window = Some(master);
    Some(master)
}

/// The window that occupies the `C` column in master-stack mode, if the
/// workspace has one.
///
/// Repairs a designation that names a window which has left the
/// workspace, so the returned id is always a live tiling window.
pub fn workspace_center_window_id(workspace: &mut Workspace) -> (center: Option<ContainerId>)
    ensures
        center == center_of(*old(workspace)),
        *final(workspace) == repaired(*old(workspace)),
{
    let windows: Vec<ContainerId> = ordered_windows(workspace, None);
    resolve_master(workspace, &windows)
}

/// Index of the column holding the workspace's master window: the layout's
/// center column.
///
/// Deliberately *not* the widest column: the widths tie for the common
/// `C,*` layout when the center takes half of the workspace.
pub fn center_column(workspace: &mut Workspace) -> (column: Option<usize>)
    ensures
        match column {
            Some(column) => center_col(*old(workspace)) == Some(column as int),
            None => center_col(*old(workspace)) is None,
        },
        *final(workspace) == repaired(*old(workspace)),
{
    match workspace_center_window_id(workspace) {
        Some(master) => match workspace.grid.find(master) {
            Some((column, _)) => Some(column),
            None => None,
        },
        None => None,
    }
}

/// Current width fraction of the workspace's center column when it has
/// at least two tiling windows.
///
/// Returns `None` for a workspace with fewer than two tiling windows,
/// where no meaningful center width exists.
pub fn workspace_center_width(workspace: &mut Workspace) -> (width: Option<Fraction>)
    ensures
        width == center_width(*old(workspace)),
        *final(workspace) == measured(*old(workspace)),
{
    if workspace.grid.window_count() < 2 {
        return None;
    }
    match center_column(workspace) {
        Some(column) => if column < workspace.grid.widths.len() {
            Some(workspace.grid.widths[column])
        } else {
            None
        },
        None => None,
    }
}

/// Id of the focused tiling window on the workspace, if any.
pub fn focused_window_id(workspace: &Workspace) -> (id: Option<ContainerId>)
    ensures
        id == focused(*workspace),
{
    let mut i: usize = 0;
    while i < workspace.focus_order.len()
        invariant
            i <= workspace.focus_order.len(),
            forall|k: int| 0 <= k < i ==> !is_tiling()(#[trigger] workspace.focus_order@[k]),
        decreases workspace.focus_order.len() - i,
    {
        match workspace.focus_order[i] {
            Container::TilingWindow(id) => {
                proof {
                    lemma_first_index_is(
                        workspace.focus_order@,
                        is_tiling(),
                        i as int,
                    );
                }
                return Some(id);
            },
            Container::Other(_) => {},
        }
        i += 1;
    }
    proof {
        lemma_first_index_none(workspace.focus_order@, is_tiling());
    }
    None
}

} // verus!
