use wm::columns::grid::ColumnGrid;
use wm::columns::{ColumnsError, MonitorDefault};
use wm::events::handle_window_destroyed::{
    handle_window_destroyed, settle_workspace, DestroyedAction, DestroyedError, Settled,
};
use wm::events::handle_window_hidden::{
    focus_after_hidden, handle_window_hidden, visibility_of_hidden, HiddenAction, Unmanage,
};
use wm::state::{
    ColumnLayout, ColumnsMode, ContainerId, DisplayState, Fraction, HideMethod, ManagedWindow,
    WindowId, WmState, Workspace,
};

fn id(bits: u128) -> ContainerId {
    ContainerId { bits }
}

fn native(handle: isize) -> WindowId {
    WindowId { handle }
}

/// A workspace with the windows of these numbers, each its own column.
fn workspace(windows: &[u128]) -> Workspace {
    let ids: Vec<ContainerId> = windows.iter().map(|bits| id(*bits)).collect();
    Workspace {
        grid: ColumnGrid {
            columns: ids.iter().map(|id| vec![*id]).collect(),
            widths: ids.iter().map(|_| Fraction { bits: 0 }).collect(),
        },
        columns: None,
        master_window: ids.first().copied(),
        columns_mode: ColumnsMode::MasterStackLeft,
        focus_order: Vec::new(),
        window_order: ids,
    }
}

/// Two workspaces with three windows, and a window on none.
fn state(display_state: DisplayState) -> WmState {
    let window = |number: u128, workspace| ManagedWindow {
        id: id(number),
        native: native(100 + number as isize),
        workspace,
        display_state,
    };
    WmState {
        windows: vec![
            window(1, Some(0)),
            window(2, Some(1)),
            window(3, Some(1)),
            window(4, None),
        ],
        workspaces: vec![workspace(&[1]), workspace(&[2, 3])],
        containers: vec![id(1), id(2), id(3), id(4)],
        focused_container: Some(id(1)),
        last_centered_out: None,
    }
}

fn default_columns(spec: &str) -> MonitorDefault {
    MonitorDefault::Matched(Some(ColumnLayout {
        spec: spec.to_string(),
        center: Fraction { bits: 0.5f32.to_bits() },
    }))
}

#[test]
fn a_closed_window_gives_up_the_master_designation() {
    let mut state = state(DisplayState::Shown);

    assert_eq!(
        handle_window_destroyed(native(102), &mut state),
        Ok(DestroyedAction::Unmanage { window: id(2), workspace: 1 })
    );
    assert_eq!(state.workspaces[1].master_window, None);
    assert_eq!(state.workspaces[0].master_window, Some(id(1)));
}

#[test]
fn another_window_keeps_the_master_designation() {
    let mut state = state(DisplayState::Shown);

    assert_eq!(
        handle_window_destroyed(native(103), &mut state),
        Ok(DestroyedAction::Unmanage { window: id(3), workspace: 1 })
    );
    assert_eq!(state.workspaces[1].master_window, Some(id(2)));
}

#[test]
fn an_unmanaged_window_is_ignored() {
    let mut state = state(DisplayState::Shown);

    assert_eq!(handle_window_destroyed(native(7), &mut state), Ok(DestroyedAction::Ignore));
    assert_eq!(
        handle_window_hidden(native(7), HideMethod::PlaceInCorner, &mut state),
        HiddenAction::Ignore
    );
}

#[test]
fn a_window_on_no_workspace_is_an_error() {
    let mut state = state(DisplayState::Shown);
    let error = handle_window_destroyed(native(104), &mut state).unwrap_err();

    assert_eq!(error, DestroyedError::NoWorkspace);
    assert_eq!(error.message(), "No workspace.");
}

#[test]
fn only_an_empty_workspace_out_of_sight_is_deactivated() {
    let default = default_columns("C,*");
    for case in 0..8 {
        let (keep_alive, has_children, is_displayed) =
            (case & 1 != 0, case & 2 != 0, case & 4 != 0);
        let settled = settle_workspace(
            &mut workspace(&[]),
            keep_alive,
            has_children,
            is_displayed,
            &default,
        )
        .unwrap();
        assert_eq!(matches!(settled, Settled::Deactivate), case == 0);
    }
}

#[test]
fn a_workspace_that_stays_is_tidied() {
    let mut left = workspace(&[2, 3, 4]);
    left.master_window = None;
    let settled = settle_workspace(&mut left, false, true, true, &default_columns("*,C")).unwrap();

    // The first window in on-screen order is promoted.
    assert_eq!(left.master_window, Some(id(2)));
    let Settled::Stay(Some(arrangement)) = settled else {
        panic!("a layout was expected");
    };
    assert_eq!(arrangement.columns, vec![vec![id(3), id(4)], vec![id(2)]]);

    let error = settle_workspace(&mut left, false, true, true, &MonitorDefault::NoMonitor);
    assert!(matches!(error, Err(ColumnsError::NoMonitor)));
}

#[test]
fn a_window_being_hidden_is_now_hidden() {
    for method in [HideMethod::Hide, HideMethod::Cloak] {
        let mut state = state(DisplayState::Hiding);

        assert_eq!(handle_window_hidden(native(102), method, &mut state), HiddenAction::Ignore);
        assert_eq!(state.windows[1].display_state, DisplayState::Hidden);
        assert_eq!(state.windows[0].display_state, DisplayState::Hiding);
    }
}

#[test]
fn a_window_at_rest_is_looked_at() {
    let asked = HiddenAction::AskVisible { window: 1 };

    for (method, display, action) in [
        (HideMethod::Hide, DisplayState::Shown, asked),
        (HideMethod::Cloak, DisplayState::Shown, asked),
        (HideMethod::Hide, DisplayState::Showing, HiddenAction::Ignore),
        (HideMethod::Cloak, DisplayState::Hidden, HiddenAction::Ignore),
        (HideMethod::PlaceInCorner, DisplayState::Hiding, asked),
        (HideMethod::PlaceInCorner, DisplayState::Showing, asked),
        (HideMethod::PlaceInCorner, DisplayState::Shown, asked),
        (HideMethod::PlaceInCorner, DisplayState::Hidden, asked),
    ] {
        let mut state = state(display);

        assert_eq!(handle_window_hidden(native(102), method, &mut state), action);
        assert_eq!(state.windows[1].display_state, display);
    }
}

#[test]
fn a_visible_window_stays() {
    let mut state = state(DisplayState::Shown);

    assert_eq!(visibility_of_hidden(&mut state, 1, Some(true)), None);
    assert_eq!(state.workspaces[1].window_order, vec![id(2), id(3)]);
}

#[test]
fn a_hidden_window_leaves_the_window_order() {
    for visible in [Some(false), None] {
        let mut state = state(DisplayState::Shown);

        assert_eq!(
            visibility_of_hidden(&mut state, 2, visible),
            Some(Unmanage { window: id(3), workspace: Some(1) })
        );
        assert_eq!(state.workspaces[1].window_order, vec![id(2)]);
        assert_eq!(focus_after_hidden(&state.workspaces[1], &state), Some(id(2)));
    }
}

#[test]
fn a_hidden_window_on_no_workspace_is_just_unmanaged() {
    let mut state = state(DisplayState::Shown);

    assert_eq!(
        visibility_of_hidden(&mut state, 3, Some(false)),
        Some(Unmanage { window: id(4), workspace: None })
    );
}

#[test]
fn focus_falls_back_to_the_focused_container() {
    let mut state = state(DisplayState::Shown);

    // The window that came last is not live any more.
    state.containers = vec![id(1), id(2)];
    assert_eq!(focus_after_hidden(&workspace(&[2, 3]), &state), Some(id(1)));

    // No window is left.
    assert_eq!(focus_after_hidden(&workspace(&[]), &state), Some(id(1)));

    state.focused_container = None;
    assert_eq!(focus_after_hidden(&workspace(&[]), &state), None);
}

#[test]
fn a_hidden_master_gives_up_the_designation() {
    // The workspace has no columns, and one window.
    let mut state = state(DisplayState::Shown);
    assert_eq!(state.workspaces[0].master_window, Some(id(1)));
    assert_eq!(
        visibility_of_hidden(&mut state, 0, Some(false)),
        Some(Unmanage { window: id(1), workspace: Some(0) })
    );
    assert_eq!(state.workspaces[0].master_window, None);

    // Another window leaves the master as it is, and so does a visible one.
    visibility_of_hidden(&mut state, 2, Some(false));
    assert_eq!(state.workspaces[1].master_window, Some(id(2)));
    visibility_of_hidden(&mut state, 1, Some(true));
    assert_eq!(state.workspaces[1].master_window, Some(id(2)));
}
