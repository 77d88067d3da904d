//! A window was hidden.

use crate::columns::{others, without};
use crate::columns::reading::other_than;
use crate::state::{
    first_index, has_native, index_of, is_id, lemma_first_index, lemma_first_index_is, ContainerId,
    DisplayState, HideMethod, ManagedWindow, WindowId, Wm, WmState, Workspace,
};
use vstd::prelude::*;

verus! {

/// What is to be done about the window.
#[derive(Debug, Clone, Copy, PartialEq, Eq, Structural)]
pub enum HiddenAction {
    /// Nothing more.
    Ignore,
    /// Ask the platform whether the window is visible, and hand the reply
    /// to [`visibility_of_hidden`] with the window's index.
    AskVisible { window: usize },
}

/// Whether the window was hidden by the window manager, which waits for
/// that to be confirmed.
pub open spec fn confirms_hiding(method: HideMethod, display: DisplayState) -> bool {
    method != HideMethod::PlaceInCorner && display == DisplayState::Hiding
}

/// Whether the window is not in a display state transition.
pub open spec fn at_rest(method: HideMethod, display: DisplayState) -> bool {
    method == HideMethod::PlaceInCorner || display == DisplayState::Shown
}

/// What is to be done about a window with the handle `native`.
pub open spec fn hidden_action(state: Wm, native: WindowId, method: HideMethod) -> HiddenAction {
    match first_index(state.windows, has_native(native)) {
        Some(index) => {
            let display = state.windows[index].display_state;
            if !confirms_hiding(method, display) && at_rest(method, display) {
                HiddenAction::AskVisible { window: index as usize }
            } else {
                HiddenAction::Ignore
            }
        },
        None => HiddenAction::Ignore,
    }
}

/// The state once the event was looked at.
pub open spec fn hidden_after(state: Wm, native: WindowId, method: HideMethod) -> Wm {
    match first_index(state.windows, has_native(native)) {
        Some(index) => if confirms_hiding(method, state.windows[index].display_state) {
            let window = ManagedWindow {
                display_state: DisplayState::Hidden,
                ..state.windows[index]
            };
            Wm { windows: state.windows.update(index, window), ..state }
        } else {
            state
        },
        None => state,
    }
}

/// Decides what is to be done about a window that was hidden.
///
/// A window that the window manager is hiding is now hidden. One that is
/// not in a display state transition is to be unmanaged; but since window
/// events are not guaranteed to come in the right order, the event is
/// ignored where the window is not actually hidden.
pub fn handle_window_hidden(
    native_window: WindowId,
    hide_method: HideMethod,
    state: &mut WmState,
) -> (action: HiddenAction)
    requires
        old(state)@.well_formed(),
    ensures
        action == hidden_action(old(state)@, native_window, hide_method),
        final(state)@ == hidden_after(old(state)@, native_window, hide_method),
        final(state)@.well_formed(),
        action matches HiddenAction::AskVisible { window } ==> window
            < final(state)@.windows.len(),
{
    proof {
        lemma_first_index(state@.windows, has_native(native_window));
    }
    let index: usize = match state.window_from_native(native_window) {
        Some(index) => index,
        None => return HiddenAction::Ignore,
    };
    let ghost before = state@;
    let display: DisplayState = state.windows[index].display_state;
    if hide_method != HideMethod::PlaceInCorner && display == DisplayState::Hiding {
        let mut window: ManagedWindow = state.windows[index];
        window.display_state = DisplayState::Hidden;
        state.windows[index] = window;
        assert(state@ =~= hidden_after(before, native_window, hide_method));
        return HiddenAction::Ignore;
    }
    if hide_method == HideMethod::PlaceInCorner || display == DisplayState::Shown {
        HiddenAction::AskVisible { window: index }
    } else {
        HiddenAction::Ignore
    }
}

/// A window to be unmanaged.
#[derive(Debug, Clone, Copy, PartialEq, Eq, Structural)]
pub struct Unmanage {
    /// The window's container.
    pub window: ContainerId,
    /// The index of the workspace it leaves, whose columns are then to be
    /// reapplied before the focus moves to [`focus_after_hidden`].
    pub workspace: Option<usize>,
}

/// Whether a workspace is as it was, but for `window`, which is out of its
/// window order and no longer its designated master.
pub open spec fn given_up(before: Workspace, after: Workspace, window: ContainerId) -> bool {
    &&& after.window_order@ == others(before.window_order@, window)
    &&& after == before.with_order(after.window_order).without_master(window)
}

/// The window to be unmanaged, unless it is visible.
pub open spec fn unmanaged(state: Wm, window: int, visible: Option<bool>) -> Option<Unmanage> {
    if visible == Some(true) {
        None
    } else {
        Some(
            Unmanage {
                window: state.windows[window].id,
                workspace: state.windows[window].workspace,
            },
        )
    }
}

/// Decides whether the window at index `window` is to be unmanaged, given
/// whether the platform says that it is visible (`None` if it could not
/// tell). Before it is unmanaged, the window is taken out of its
/// workspace's window order and gives up the master designation.
pub fn visibility_of_hidden(state: &mut WmState, window: usize, visible: Option<bool>) -> (gone:
    Option<Unmanage>)
    requires
        old(state)@.well_formed(),
        window < old(state)@.windows.len(),
    ensures
        gone == unmanaged(old(state)@, window as int, visible),
        final(state)@.well_formed(),
        match gone {
            Some(Unmanage { window: id, workspace: Some(workspace) }) => {
                &&& given_up(
                    old(state)@.workspaces[workspace as int],
                    final(state)@.workspaces[workspace as int],
                    id,
                )
                &&& final(state)@ == old(state)@.with_workspace(
                    workspace as int,
                    final(state)@.workspaces[workspace as int],
                )
            },
            _ => final(state)@ == old(state)@,
        },
{
    match visible {
        Some(true) => return None,
        _ => {},
    }
    let subject: ManagedWindow = state.windows[window];
    assert(subject == state@.windows[window as int]);
    let ghost before = state@;
    if let Some(workspace) = subject.workspace {
        let order: Vec<ContainerId> = without(&state.workspaces[workspace].window_order, subject.id);
        state.workspaces[workspace].window_order = order;
        state.workspaces[workspace].give_up_master(subject.id);
        assert(state@ =~= before.with_workspace(
            workspace as int,
            state@.workspaces[workspace as int],
        ));
    }
    Some(Unmanage { window: subject.id, workspace: subject.workspace })
}

/// The container that gains focus once a hidden window is gone.
pub open spec fn focus_target_after(
    window_order: Seq<ContainerId>,
    containers: Seq<ContainerId>,
    focused: Option<ContainerId>,
) -> Option<ContainerId> {
    if window_order.len() > 0 && containers.contains(window_order.last()) {
        Some(window_order.last())
    } else {
        focused
    }
}

/// The container that gains focus once a hidden window is gone from
/// `workspace`: the window that came last, if it is live, otherwise the
/// focused container.
pub fn focus_after_hidden(workspace: &Workspace, state: &WmState) -> (target: Option<ContainerId>)
    ensures
        target == focus_target_after(
            workspace.window_order@,
            state@.containers,
            state@.focused_container,
        ),
{
    let count: usize = workspace.window_order.len();
    if count > 0 {
        let last: ContainerId = workspace.window_order[count - 1];
        proof {
            lemma_first_index(state.containers@, is_id(last));
        }
        match index_of(&state.containers, last) {
            Some(index) => {
                assert(state.containers@[index as int] == last);
                return Some(last);
            },
            None => {
                assert forall|i: int| 0 <= i < state.containers@.len() implies state.containers@[i]
                    != last by {
                    assert(!is_id(last)(state.containers@[i]));
                }
            },
        }
    }
    state.focused_container
}

/// A window that is unmanaged is no longer its workspace's designated
/// master, and any other master stays.
pub proof fn a_hidden_window_is_no_master(before: Workspace, after: Workspace, window: ContainerId)
    requires
        given_up(before, after, window),
    ensures
        after.master_window != Some(window),
        before.master_window != Some(window) ==> after.master_window == before.master_window,
{
}

/// A window that was taken out of the window order is not the one that the
/// order hands the focus to.
pub proof fn a_hidden_window_is_not_last(order: Seq<ContainerId>, window: ContainerId)
    ensures
        !others(order, window).contains(window),
        others(order, window).len() > 0 ==> others(order, window).last() != window,
{
    let left = others(order, window);
    assert forall|i: int| 0 <= i < left.len() implies left[i] != window by {
        order.lemma_filter_pred(other_than(window), i);
    }
}

/// A hidden window is found by its handle, as the first of several. One that
/// the window manager is hiding is now hidden, unless windows are hidden in
/// a corner. Otherwise the platform is asked about it if it is shown, or if
/// windows are hidden in a corner. Nothing else happens, and a handle that
/// no window has is ignored.
pub proof fn a_hidden_window_is_found_by_its_handle(
    state: Wm,
    native: WindowId,
    method: HideMethod,
    at: int,
)
    requires
        state.windows.len() <= usize::MAX,
    ensures
        (forall|k: int| 0 <= k < state.windows.len() ==> (#[trigger] state.windows[k]).native
            != native) ==> {
            &&& hidden_action(state, native, method) == HiddenAction::Ignore
            &&& hidden_after(state, native, method) == state
        },
        0 <= at < state.windows.len() && state.windows[at].native == native && (forall|k: int|
            0 <= k < at ==> (#[trigger] state.windows[k]).native != native) ==> {
            let window = state.windows[at];
            let corner = method == HideMethod::PlaceInCorner;
            let hiding = !corner && window.display_state == DisplayState::Hiding;
            &&& hidden_action(state, native, method) == if corner || window.display_state
                == DisplayState::Shown {
                HiddenAction::AskVisible { window: at as usize }
            } else {
                HiddenAction::Ignore
            }
            &&& hidden_after(state, native, method) == (Wm {
                windows: state.windows.update(
                    at,
                    ManagedWindow {
                        display_state: if hiding {
                            DisplayState::Hidden
                        } else {
                            window.display_state
                        },
                        ..window
                    },
                ),
                ..state
            })
        },
{
    lemma_first_index(state.windows, has_native(native));
    if forall|k: int|
        0 <= k < state.windows.len() ==> (#[trigger] state.windows[k]).native != native {
        if let Some(index) = first_index(state.windows, has_native(native)) {
            assert(has_native(native)(state.windows[index]));
            assert(state.windows[index].native != native);
        }
    }
    if 0 <= at < state.windows.len() && state.windows[at].native == native && (forall|k: int|
        0 <= k < at ==> (#[trigger] state.windows[k]).native != native) {
        assert forall|k: int| 0 <= k < at implies !has_native(native)(
            #[trigger] state.windows[k],
        ) by {
            assert(state.windows[k].native != native);
        }
        lemma_first_index_is(state.windows, has_native(native), at);
        assert(state.windows.update(at, state.windows[at]) =~= state.windows);
    }
}

/// A window is unmanaged unless it is known to be visible, with its own id
/// and workspace.
pub proof fn a_window_not_known_to_be_visible_is_unmanaged(
    state: Wm,
    window: int,
    visible: Option<bool>,
)
    requires
        0 <= window < state.windows.len(),
    ensures
        visible == Some(true) <==> unmanaged(state, window, visible) is None,
        unmanaged(state, window, visible) matches Some(gone) ==> gone.window
            == state.windows[window].id && gone.workspace == state.windows[window].workspace,
{
}

/// What is left of the window order is the other windows in their order,
/// and nothing else of the workspace changes but its designated master.
pub proof fn the_other_windows_keep_their_order(
    before: Workspace,
    after: Workspace,
    window: ContainerId,
)
    requires
        given_up(before, after, window),
    ensures
        after.window_order@ == before.window_order@.filter(|other: ContainerId| other != window),
        after == (Workspace {
            window_order: after.window_order,
            master_window: after.master_window,
            ..before
        }),
{
    let keep = |other: ContainerId| other != window;
    assert(keep =~= other_than(window));
}

/// The window that came last gains focus if it is live. If it is not, or no
/// window is left, the focused container keeps the focus.
pub proof fn the_last_live_window_gains_focus(
    window_order: Seq<ContainerId>,
    containers: Seq<ContainerId>,
    focused: Option<ContainerId>,
    window: ContainerId,
)
    ensures
        containers.contains(window) ==> focus_target_after(
            window_order.push(window),
            containers,
            focused,
        ) == Some(window),
        !containers.contains(window) ==> focus_target_after(
            window_order.push(window),
            containers,
            focused,
        ) == focused,
        focus_target_after(Seq::empty(), containers, focused) == focused,
{
}

} // verus!
