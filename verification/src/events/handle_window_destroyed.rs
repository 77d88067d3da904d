//! A window was closed.

use crate::columns::{
    reapply_after, reapply_assigned_columns, reapply_outcome, shown, ColumnsError, ColumnsFault,
    MonitorDefault,
};
use crate::columns::grid::{Arrangement, Layout};
use crate::state::{
    first_index, has_native, lemma_first_index, lemma_first_index_is, ContainerId, ManagedWindow,
    WindowId, Wm, WmState, Workspace,
};
use vstd::prelude::*;

verus! {

/// Why the event could not be handled.
#[derive(Debug, Clone, Copy, PartialEq, Eq, Structural)]
pub enum DestroyedError {
    /// The window is on no workspace.
    NoWorkspace,
}

impl DestroyedError {
    /// The message to be shown.
    pub fn message(&self) -> (message: &'static str)
        ensures
            message@ == "No workspace."@,
    {
        match self {
            DestroyedError::NoWorkspace => "No workspace.",
        }
    }
}

/// What is to be done about the window.
#[derive(Debug, Clone, Copy, PartialEq, Eq, Structural)]
pub enum DestroyedAction {
    /// The window is not managed: nothing.
    Ignore,
    /// The window is to be unmanaged. Then the workspace at this index is
    /// handed to [`settle_workspace`].
    Unmanage { window: ContainerId, workspace: usize },
}

/// What is to be done about a window with the handle `native`.
pub open spec fn destroyed_action(state: Wm, native: WindowId) -> Result<
    DestroyedAction,
    DestroyedError,
> {
    match first_index(state.windows, has_native(native)) {
        Some(index) => match state.windows[index].workspace {
            Some(workspace) => Ok(
                DestroyedAction::Unmanage { window: state.windows[index].id, workspace },
            ),
            None => Err(DestroyedError::NoWorkspace),
        },
        None => Ok(DestroyedAction::Ignore),
    }
}

/// The state once the event was looked at.
pub open spec fn destroyed_after(state: Wm, native: WindowId) -> Wm {
    match destroyed_action(state, native) {
        Ok(DestroyedAction::Unmanage { window, workspace }) => state.with_workspace(
            workspace as int,
            state.workspaces[workspace as int].without_master(window),
        ),
        _ => state,
    }
}

/// Decides what is to be done about a window that was closed.
///
/// A managed window gives up the master designation before it is
/// unmanaged, so the layout promotes the first remaining window in
/// on-screen order instead of holding a dangling id.
pub fn handle_window_destroyed(native_window_id: WindowId, state: &mut WmState) -> (action: Result<
    DestroyedAction,
    DestroyedError,
>)
    requires
        old(state)@.well_formed(),
    ensures
        action == destroyed_action(old(state)@, native_window_id),
        final(state)@ == destroyed_after(old(state)@, native_window_id),
        final(state)@.well_formed(),
{
    proof {
        lemma_first_index(state@.windows, has_native(native_window_id));
    }
    let index: usize = match state.window_from_native(native_window_id) {
        Some(index) => index,
        None => return Ok(DestroyedAction::Ignore),
    };
    let window: ManagedWindow = state.windows[index];
    assert(window == state@.windows[index as int]);
    let workspace: usize = match window.workspace {
        Some(workspace) => workspace,
        None => return Err(DestroyedError::NoWorkspace),
    };
    let ghost before = state@;
    state.workspaces[workspace].give_up_master(window.id);
    assert(state@ =~= destroyed_after(before, native_window_id));
    Ok(DestroyedAction::Unmanage { window: window.id, workspace })
}

/// What becomes of a workspace that lost a window.
#[derive(Debug)]
pub enum Settled {
    /// It is to be deactivated.
    Deactivate,
    /// It stays, and these columns are to be shown, if any.
    Stay(Option<Arrangement>),
}

/// Whether a workspace is destroyed with its last window: its window was
/// killed while the workspace was not displayed (e.g. via task manager),
/// and the workspace is not kept alive.
pub open spec fn deactivates(keep_alive: bool, has_children: bool, is_displayed: bool) -> bool {
    !keep_alive && !has_children && !is_displayed
}

/// Settles a workspace whose window was unmanaged: it is deactivated, or
/// its columns are tidied now that a window is gone.
pub fn settle_workspace(
    workspace: &mut Workspace,
    keep_alive: bool,
    has_children: bool,
    is_displayed: bool,
    default: &MonitorDefault,
) -> (settled: Result<Settled, ColumnsError>)
    ensures
        ({
            let expected = reapply_outcome(*old(workspace), None, *default);
            match settled {
                Ok(Settled::Deactivate) => deactivates(keep_alive, has_children, is_displayed),
                Ok(Settled::Stay(arrangement)) => {
                    &&& !deactivates(keep_alive, has_children, is_displayed)
                    &&& expected == Ok::<Option<Layout>, ColumnsFault>(shown(arrangement))
                },
                Err(error) => {
                    &&& !deactivates(keep_alive, has_children, is_displayed)
                    &&& expected == Err::<Option<Layout>, ColumnsFault>(error@)
                },
            }
        }),
        *final(workspace) == if deactivates(keep_alive, has_children, is_displayed) {
            *old(workspace)
        } else {
            reapply_after(*old(workspace), None, *default)
        },
{
    if !keep_alive && !has_children && !is_displayed {
        return Ok(Settled::Deactivate);
    }
    match reapply_assigned_columns(workspace, default) {
        Ok(arrangement) => Ok(Settled::Stay(arrangement)),
        Err(error) => Err(error),
    }
}

/// A window that is unmanaged is no longer its workspace's designated
/// master.
pub proof fn a_closed_window_is_no_master(state: Wm, native: WindowId)
    requires
        state.well_formed(),
    ensures
        destroyed_action(state, native) matches Ok(
            DestroyedAction::Unmanage { window, workspace },
        ) ==> destroyed_after(state, native).workspaces[workspace as int].master_window != Some(
            window,
        ),
{
    lemma_first_index(state.windows, has_native(native));
}

/// A window that is closed is found by its handle, as the first of several.
/// It is to be unmanaged, on its workspace; a window on no workspace is an
/// error, and a handle that no window has is ignored. Nothing but the
/// workspace's designated master changes, and that only where it is the
/// window.
pub proof fn a_closed_window_is_found_by_its_handle(state: Wm, native: WindowId, at: int)
    requires
        state.well_formed(),
    ensures
        (forall|k: int| 0 <= k < state.windows.len() ==> (#[trigger] state.windows[k]).native
            != native) ==> {
            &&& destroyed_action(state, native) == Ok::<DestroyedAction, DestroyedError>(
                DestroyedAction::Ignore,
            )
            &&& destroyed_after(state, native) == state
        },
        0 <= at < state.windows.len() && state.windows[at].native == native && (forall|k: int|
            0 <= k < at ==> (#[trigger] state.windows[k]).native != native) ==> {
            let window = state.windows[at];
            match window.workspace {
                Some(index) => {
                    let after = destroyed_after(state, native);
                    let subject = state.workspaces[index as int];
                    let changed = after.workspaces[index as int];
                    &&& destroyed_action(state, native) == Ok::<DestroyedAction, DestroyedError>(
                        DestroyedAction::Unmanage { window: window.id, workspace: index },
                    )
                    &&& after == (Wm {
                        workspaces: state.workspaces.update(index as int, changed),
                        ..state
                    })
                    &&& changed == (Workspace { master_window: changed.master_window, ..subject })
                    &&& changed.master_window == if subject.master_window == Some(window.id) {
                        None
                    } else {
                        subject.master_window
                    }
                },
                None => {
                    &&& destroyed_action(state, native) == Err::<DestroyedAction, DestroyedError>(
                        DestroyedError::NoWorkspace,
                    )
                    &&& destroyed_after(state, native) == state
                },
            }
        },
{
    lemma_first_index(state.windows, has_native(native));
    if forall|k: int|
        0 <= k < state.windows.len() ==> (#[trigger] state.windows[k]).native != native {
        if let Some(index) = first_index(state.windows, has_native(native)) {
            assert(has_native(native)(state.windows[index]));
            assert(state.windows[index].native != native);
        }
    }
    if 0 <= at < state.windows.len() && state.windows[at].native == native && (forall|k: int|
        0 <= k < at ==> (#[trigger] state.windows[k]).native != native) {
        assert forall|k: int| 0 <= k < at implies !has_native(native)(
            #[trigger] state.windows[k],
        ) by {
            assert(state.windows[k].native != native);
        }
        lemma_first_index_is(state.windows, has_native(native), at);
        assert(state.windows[at].workspace matches Some(index) ==> index
            < state.workspaces.len());
    }
}

/// A workspace is deactivated only where it is empty, out of sight and not
/// kept alive.
pub proof fn a_workspace_in_use_is_not_deactivated(
    keep_alive: bool,
    has_children: bool,
    is_displayed: bool,
)
    ensures
        deactivates(keep_alive, has_children, is_displayed) <==> !(keep_alive || has_children
            || is_displayed),
{
}

} // verus!
