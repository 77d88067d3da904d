use wm::columns::grid::{Arrangement, ColumnGrid, ColumnWidth};
use wm::columns::master::{focused_window_id, workspace_center_window_id};
use wm::columns::rearrange::{
    adjacent_column, apply_center, apply_rotate, focus_in_columns, move_window_in_columns,
    straight_across_row, Beside, Change, MoveAction,
};
use wm::columns::{
    apply_columns, apply_grid, assign_columns, effective_columns, reapply_assigned_columns,
    reapply_columns_after_move, reapply_columns_for_new_window, reverse_spec, store_center_width,
    toggle_columns_mode, unassign_columns, ColumnsError, MonitorDefault,
};
use wm::columns::spec::SpecError;
use wm::state::{
    ColumnLayout, ColumnsMode, Container, ContainerId, Direction, Fraction, WindowContainer,
    WmState, Workspace,
};

fn fraction(value: f32) -> Fraction {
    Fraction { bits: value.to_bits() }
}

fn id(bits: u128) -> ContainerId {
    ContainerId { bits }
}

/// The default columns of a configuration with one rule for every monitor.
fn config_with_default_columns(spec: &str) -> MonitorDefault {
    MonitorDefault::Matched(Some(ColumnLayout { spec: spec.to_string(), center: fraction(0.5) }))
}

/// A configuration without default columns.
fn no_default() -> MonitorDefault {
    MonitorDefault::Unconfigured
}

/// A workspace with its place in the container tree, which the tests play:
/// rows of a column are even, and a column without windows is left out.
struct Desk {
    workspace: Workspace,
    state: WmState,
    next: u128,
}

/// A desk with `count` windows, each its own column.
fn setup(count: u128) -> (Desk, Vec<ContainerId>) {
    desk_from(1, count)
}

fn desk_from(first: u128, count: u128) -> (Desk, Vec<ContainerId>) {
    let ids: Vec<ContainerId> = (first..first + count).map(id).collect();
    let workspace = Workspace {
        grid: ColumnGrid {
            columns: ids.iter().map(|id| vec![*id]).collect(),
            widths: ids.iter().map(|_| fraction(1.0 / count as f32)).collect(),
        },
        columns: None,
        master_window: None,
        columns_mode: ColumnsMode::MasterStackLeft,
        focus_order: ids.iter().map(|id| Container::TilingWindow(*id)).collect(),
        window_order: ids.clone(),
    };
    let state = WmState {
        windows: Vec::new(),
        workspaces: Vec::new(),
        containers: Vec::new(),
        focused_container: None,
        last_centered_out: None,
    };
    (Desk { workspace, state, next: first + count }, ids)
}

/// The value of a width.
fn width_of(width: &ColumnWidth) -> f32 {
    match width {
        ColumnWidth::Center(center) => f32::from_bits(center.bits),
        ColumnWidth::Side { center, sharing } => {
            (1.0 - f32::from_bits(center.bits)) / *sharing as f32
        }
        ColumnWidth::Even(count) => 1.0 / *count as f32,
        ColumnWidth::Kept(width) => f32::from_bits(width.bits),
    }
}

impl Desk {
    /// Shows an arrangement.
    fn show(&mut self, arrangement: &Arrangement) {
        let shown = arrangement.without_empty_columns();
        let widths: Vec<f32> = shown.widths.iter().map(width_of).collect();
        let sum: f32 = widths.iter().sum();
        self.workspace.grid = ColumnGrid {
            columns: shown.columns,
            widths: widths.iter().map(|width| fraction(width / sum)).collect(),
        };
    }

    /// Shows an arrangement, where there is one.
    fn show_any(&mut self, arrangement: Option<Arrangement>) {
        if let Some(arrangement) = arrangement {
            self.show(&arrangement);
        }
    }

    /// Shows a change, commits it and moves the focus.
    fn carry_out(&mut self, change: Change) {
        self.show(&change.arrangement);
        change.commit(&mut self.workspace, &mut self.state);
        if let Some(focus) = change.focus {
            self.focus(focus);
        }
    }

    fn focus(&mut self, window: ContainerId) {
        self.workspace.focus_order.retain(|container| *container != Container::TilingWindow(window));
        self.workspace.focus_order.insert(0, Container::TilingWindow(window));
    }

    fn apply(&mut self, spec: &str, center: f32) {
        let arrangement = apply_columns(&mut self.workspace, spec, fraction(center)).unwrap();
        self.show_any(arrangement);
    }

    fn assign(&mut self, spec: &str, center: f32) {
        let arrangement = assign_columns(&mut self.workspace, spec, fraction(center)).unwrap();
        self.show_any(arrangement);
    }

    fn reapply(&mut self, default: &MonitorDefault) {
        let arrangement = reapply_assigned_columns(&mut self.workspace, default).unwrap();
        self.show_any(arrangement);
    }

    fn reapply_for(&mut self, window: ContainerId, default: &MonitorDefault) {
        let arrangement =
            reapply_columns_for_new_window(&mut self.workspace, window, default).unwrap();
        self.show_any(arrangement);
    }

    fn grid(&mut self, columns: usize, last: Option<ContainerId>) {
        let arrangement = apply_grid(&self.workspace, columns, last);
        self.show_any(arrangement);
    }

    fn toggle(&mut self, forced: Option<ColumnsMode>, default: &MonitorDefault) {
        let arrangement = toggle_columns_mode(&mut self.workspace, forced, default).unwrap();
        self.show_any(arrangement);
    }

    fn rotate(&mut self, ccw: bool) {
        if let Some(change) = apply_rotate(&mut self.workspace, ccw) {
            self.carry_out(change);
        }
    }

    fn center(&mut self) {
        if let Some(change) = apply_center(&mut self.workspace, &self.state) {
            self.carry_out(change);
        }
    }

    /// Adds a window in a column of its own.
    fn join(&mut self, window: ContainerId) {
        self.workspace.grid.columns.push(vec![window]);
        self.workspace.grid.widths.push(fraction(0.25));
        self.workspace.focus_order.push(Container::TilingWindow(window));
        self.workspace.window_order.push(window);
    }

    fn add_window(&mut self) -> ContainerId {
        let window = id(self.next);
        self.next += 1;
        self.join(window);
        window
    }

    fn leave(&mut self, window: ContainerId) {
        for column in &mut self.workspace.grid.columns {
            column.retain(|other| *other != window);
        }
        let grid = &mut self.workspace.grid;
        while let Some(empty) = grid.columns.iter().position(Vec::is_empty) {
            grid.columns.remove(empty);
            grid.widths.remove(empty);
        }
        self.workspace.focus_order.retain(|other| *other != Container::TilingWindow(window));
        self.workspace.window_order.retain(|other| *other != window);
    }

    /// Measures the column beside a window.
    fn beside(&self, window: ContainerId, direction: Direction) -> Beside {
        let grid = &self.workspace.grid;
        let none = Beside { overlaps: Vec::new(), remembered: None };
        let Some((col, row)) = grid.find(window) else {
            return none;
        };
        let Some(side) = adjacent_column(grid, col, direction) else {
            return none;
        };
        let span = |column: usize, row: usize| {
            let rows = grid.columns[column].len() as f32;
            (row as f32 / rows, (row + 1) as f32 / rows)
        };
        let (top, bottom) = span(col, row);
        let overlaps = (0..grid.columns[side].len())
            .map(|row| {
                let (start, end) = span(side, row);
                ((bottom.min(end) - top.max(start)).max(0.0) + 0.0).to_bits()
            })
            .collect();
        let remembered = self.workspace.focus_order.iter().find_map(|container| match container {
            Container::TilingWindow(id) if grid.columns[side].contains(id) => Some(*id),
            _ => None,
        });
        Beside { overlaps, remembered }
    }

    fn ask_move(
        &mut self,
        window: ContainerId,
        direction: Direction,
        default: &MonitorDefault,
    ) -> Result<MoveAction, ColumnsError> {
        let beside = self.beside(window, direction);
        move_window_in_columns(
            WindowContainer::TilingWindow(window),
            direction,
            Some(&mut self.workspace),
            &beside,
            default,
        )
    }

    /// Moves a window within the columns, and tells whether it did.
    fn move_window(
        &mut self,
        window: ContainerId,
        direction: Direction,
        default: &MonitorDefault,
    ) -> bool {
        match self.ask_move(window, direction, default).unwrap() {
            MoveAction::Rearrange(change) => {
                self.carry_out(change);
                true
            }
            _ => false,
        }
    }

    /// Focuses the window beside another one, and tells whether it did.
    fn focus_beside(
        &mut self,
        window: ContainerId,
        direction: Direction,
        default: &MonitorDefault,
    ) -> bool {
        let beside = self.beside(window, direction);
        let target = focus_in_columns(
            WindowContainer::TilingWindow(window),
            direction,
            Some(&self.workspace),
            &beside,
            default,
        );
        match target.unwrap() {
            Some(target) => {
                self.focus(target);
                true
            }
            None => false,
        }
    }

    fn center_window(&mut self) -> Option<ContainerId> {
        workspace_center_window_id(&mut self.workspace)
    }

    fn focused(&self) -> Option<ContainerId> {
        focused_window_id(&self.workspace)
    }

    fn ids(&self) -> Vec<Vec<ContainerId>> {
        self.workspace.grid.columns.clone()
    }

    fn width(&self, col: usize) -> f32 {
        f32::from_bits(self.workspace.grid.widths[col].bits)
    }
}

/// Moves a window out to the desk in a direction.
fn move_out(
    from: &mut Desk,
    to: &mut Desk,
    window: ContainerId,
    direction: Direction,
    default: &MonitorDefault,
) {
    assert!(matches!(from.ask_move(window, direction, default), Ok(MoveAction::LeaveWorkspace)));
    from.leave(window);
    to.join(window);
    let after = reapply_columns_after_move(
        &mut from.workspace,
        &mut to.workspace,
        window,
        default,
        default,
    )
    .unwrap();
    from.show_any(after.source);
    to.show_any(after.target.unwrap());
}

fn holds(desk: &Desk, window: ContainerId) -> bool {
    desk.workspace.grid.find(window).is_some()
}

#[test]
fn applies_star_center_star_layout() {
    let (mut desk, ids) = setup(5);
    desk.apply("*,C,*", 0.6);

    assert_eq!(desk.ids(), vec![vec![ids[1], ids[3]], vec![ids[0]], vec![ids[2], ids[4]]]);

    // The center column is the master's, and it is the wide one.
    assert_eq!(desk.workspace.grid.find(ids[0]), Some((1, 0)));
    assert!((desk.width(1) - 0.6).abs() < 1e-3);
}

#[test]
fn applies_fixed_column_layout() {
    let (mut desk, ids) = setup(6);
    desk.apply("2,C,*", 0.6);

    // The fixed column takes two windows, dealt on the first two rows.
    assert_eq!(
        desk.ids(),
        vec![vec![ids[1], ids[3]], vec![ids[0]], vec![ids[2], ids[4], ids[5]]]
    );
}

#[test]
fn center_column_is_the_master_not_the_widest() {
    let (mut desk, ids) = setup(3);
    desk.apply("C,*", 0.5);

    assert_eq!(desk.ids(), vec![vec![ids[0]], vec![ids[1], ids[2]]]);
    assert!((desk.width(0) - desk.width(1)).abs() < 1e-3);

    desk.focus(ids[2]);
    desk.center();

    // The focused window moves into the left column and takes the master
    // designation; the old master drops into the slot it vacated.
    assert_eq!(desk.ids(), vec![vec![ids[2]], vec![ids[1], ids[0]]]);
    assert_eq!(desk.center_window(), Some(ids[2]));
}

#[test]
fn master_survives_a_new_window() {
    let (mut desk, ids) = setup(3);
    let config = config_with_default_columns("C,*");
    desk.reapply(&config);

    desk.focus(ids[2]);
    desk.center();
    assert_eq!(desk.center_window(), Some(ids[2]));

    let new_window = desk.add_window();
    desk.reapply_for(new_window, &config);

    // The master is untouched and the new window lands at the end of the
    // stack, below every window already there.
    assert_eq!(desk.center_window(), Some(ids[2]));
    assert_eq!(desk.ids(), vec![vec![ids[2]], vec![ids[1], ids[0], new_window]]);
}

#[test]
fn new_window_does_not_move_existing_windows() {
    let (mut desk, ids) = setup(4);
    let config = config_with_default_columns("*,C,*");
    desk.reapply(&config);
    assert_eq!(desk.ids(), vec![vec![ids[1], ids[3]], vec![ids[0]], vec![ids[2]]]);

    let new_window = desk.add_window();
    desk.reapply_for(new_window, &config);

    // Every window already there keeps its exact slot; only the new one is
    // added, at the first free one.
    assert_eq!(desk.ids(), vec![vec![ids[1], ids[3]], vec![ids[0]], vec![ids[2], new_window]]);
}

#[test]
fn reapply_is_idempotent() {
    let (mut desk, _) = setup(6);
    let config = config_with_default_columns("*,C,*");
    desk.reapply(&config);

    let expected = desk.ids();
    for _ in 0..3 {
        desk.reapply(&config);
        assert_eq!(desk.ids(), expected);
    }
}

#[test]
fn master_promotes_to_first_window_when_it_leaves() {
    let (mut desk, ids) = setup(4);
    let config = config_with_default_columns("*,C,*");
    desk.reapply(&config);
    assert_eq!(desk.center_window(), Some(ids[0]));

    // The close handlers clear the designation before unmanaging.
    desk.workspace.master_window = None;
    desk.reapply(&config);

    // The first window in on-screen order takes over.
    assert_eq!(desk.center_window(), Some(ids[1]));
}

#[test]
fn rotates_windows_clockwise_keeping_shape() {
    let (mut desk, ids) = setup(5);
    desk.apply("*,C,*", 0.6);
    desk.rotate(false);

    assert_eq!(desk.ids(), vec![vec![ids[3], ids[4]], vec![ids[1]], vec![ids[0], ids[2]]]);

    // The window rotated into the center column becomes the master.
    assert_eq!(desk.center_window(), Some(ids[1]));
}

#[test]
fn rotates_windows_counter_clockwise() {
    let (mut desk, ids) = setup(5);
    desk.apply("*,C,*", 0.6);
    desk.rotate(true);

    assert_eq!(desk.ids(), vec![vec![ids[0], ids[1]], vec![ids[2]], vec![ids[4], ids[3]]]);
    assert_eq!(desk.center_window(), Some(ids[2]));
}

#[test]
fn rotating_back_restores_the_arrangement() {
    let (mut desk, _) = setup(5);
    desk.apply("*,C,*", 0.6);

    let expected = desk.ids();
    desk.rotate(false);
    desk.rotate(true);

    assert_eq!(desk.ids(), expected);
}

#[test]
fn center_swaps_focused_then_toggles_back() {
    let (mut desk, ids) = setup(5);
    desk.apply("*,C,*", 0.6);

    desk.focus(ids[1]);
    desk.center();
    assert_eq!(desk.ids(), vec![vec![ids[0], ids[3]], vec![ids[1]], vec![ids[2], ids[4]]]);
    assert_eq!(desk.focused(), Some(ids[1]));

    desk.center();
    assert_eq!(desk.ids(), vec![vec![ids[1], ids[3]], vec![ids[0]], vec![ids[2], ids[4]]]);
    assert_eq!(desk.focused(), Some(ids[0]));
}

#[test]
fn moves_window_within_column() {
    let (mut desk, ids) = setup(5);
    let config = config_with_default_columns("*,C,*");
    desk.apply("*,C,*", 0.6);

    // Window 3 sits below window 1 in the left column.
    assert!(desk.move_window(ids[3], Direction::Up, &config));

    assert_eq!(desk.ids(), vec![vec![ids[3], ids[1]], vec![ids[0]], vec![ids[2], ids[4]]]);
    assert_eq!(desk.center_window(), Some(ids[0]));
}

#[test]
fn moves_window_across_to_the_level_row() {
    let (mut desk, ids) = setup(5);
    let config = config_with_default_columns("C,*");

    desk.workspace.columns_mode = ColumnsMode::Grid;
    desk.reapply(&config);
    assert_eq!(desk.ids(), vec![vec![ids[0], ids[2], ids[4]], vec![ids[1], ids[3]]]);

    // ids[3] fills the bottom half of the two-row column, so it swaps
    // with the bottom third of the three-row column, not the middle.
    assert!(desk.move_window(ids[3], Direction::Left, &config));

    assert_eq!(desk.ids(), vec![vec![ids[0], ids[2], ids[3]], vec![ids[1], ids[4]]]);
}

#[test]
fn moves_into_center_keeps_it_single_window() {
    let (mut desk, ids) = setup(5);
    let config = config_with_default_columns("*,C,*");
    desk.apply("*,C,*", 0.6);

    assert!(desk.move_window(ids[1], Direction::Right, &config));

    // The old center is displaced into the slot the mover vacated, and
    // the mover becomes the master.
    assert_eq!(desk.ids(), vec![vec![ids[0], ids[3]], vec![ids[1]], vec![ids[2], ids[4]]]);
    assert_eq!(desk.center_window(), Some(ids[1]));
}

#[test]
fn moves_out_to_horizontally_adjacent_monitor() {
    let config = config_with_default_columns("*,C,*");
    let (mut left, ids) = desk_from(1, 5);
    let (mut right, _) = desk_from(101, 2);
    left.apply("*,C,*", 0.6);

    // Window 4 is at the bottom of the rightmost column.
    move_out(&mut left, &mut right, ids[4], Direction::Right, &config);

    assert!(!holds(&left, ids[4]));
    assert!(holds(&right, ids[4]));
    assert_eq!(left.center_window(), Some(ids[0]));
}

#[test]
fn moves_out_to_vertically_adjacent_monitor() {
    let config = config_with_default_columns("*,C,*");
    let (mut top, ids) = desk_from(1, 5);
    let (mut bottom, _) = desk_from(101, 2);
    top.apply("*,C,*", 0.6);

    // Window 4 is at the bottom of its column.
    move_out(&mut top, &mut bottom, ids[4], Direction::Down, &config);

    assert!(!holds(&top, ids[4]));
    assert!(holds(&bottom, ids[4]));
    assert_eq!(top.center_window(), Some(ids[0]));
}

#[test]
fn moving_the_master_out_promotes_a_survivor() {
    let config = config_with_default_columns("*,C");
    let (mut left, ids) = desk_from(1, 3);
    let (mut right, _) = desk_from(101, 2);
    left.reapply(&config);
    assert_eq!(left.center_window(), Some(ids[0]));

    // `*,C` puts the master in the rightmost column, so `right` takes it
    // off this workspace entirely.
    move_out(&mut left, &mut right, ids[0], Direction::Right, &config);

    // Nothing is left dangling: the workspace it left promotes its first
    // remaining window, and the workspace it joined keeps its own master.
    assert_eq!(left.center_window(), Some(ids[1]));
    assert_ne!(right.center_window(), Some(ids[0]));
}

/// The default columns of a configuration with a rule for ultrawide
/// monitors and one for wide ones.
fn default_for_monitor(width: u32, height: u32) -> MonitorDefault {
    let aspect_ratio = width as f32 / height as f32;
    if aspect_ratio >= 2.1 {
        config_with_default_columns("*,C,*")
    } else if aspect_ratio >= 1.5 {
        config_with_default_columns("C,*")
    } else {
        MonitorDefault::Matched(None)
    }
}

fn effective_spec(workspace: &Workspace, default: &MonitorDefault) -> Option<String> {
    effective_columns(workspace, default).unwrap().map(|columns| columns.spec.clone())
}

#[test]
fn workspace_recolumns_when_moved_to_monitor_with_different_aspect() {
    let (mut desk, _) = setup(3);
    desk.reapply(&default_for_monitor(3440, 1440));
    assert_eq!(desk.workspace.grid.columns.len(), 3);

    // The workspace moves to the other monitor.
    let default = default_for_monitor(1920, 1080);
    desk.reapply(&default);

    assert_eq!(effective_spec(&desk.workspace, &default), Some("C,*".to_string()));
    assert_eq!(desk.workspace.grid.columns.len(), 2);
}

#[test]
fn move_without_columns_is_not_handled() {
    let (mut desk, ids) = setup(3);
    assert!(matches!(
        desk.ask_move(ids[0], Direction::Left, &no_default()),
        Ok(MoveAction::NotHandled)
    ));
}

#[test]
fn effective_columns_uses_default_when_unassigned() {
    let (desk, _) = setup(2);
    assert_eq!(
        effective_spec(&desk.workspace, &config_with_default_columns("C,*")),
        Some("C,*".to_string())
    );
}

#[test]
fn effective_columns_prefers_assignment() {
    let (mut desk, _) = setup(2);
    let config = config_with_default_columns("*,C,*");
    desk.assign("1,C", 0.6);
    assert_eq!(effective_spec(&desk.workspace, &config), Some("1,C".to_string()));
}

#[test]
fn unassign_clears_assignment() {
    let (mut desk, _) = setup(2);
    desk.assign("*,C,*", 0.6);
    assert!(desk.workspace.columns.is_some());
    unassign_columns(&mut desk.workspace);
    assert!(desk.workspace.columns.is_none());
}

#[test]
fn reports_center_window_id() {
    let (mut desk, ids) = setup(5);
    assert_eq!(desk.center_window(), Some(ids[0]));
}

#[test]
fn store_center_width_records_resize() {
    let (mut desk, _) = setup(5);
    desk.assign("*,C,*", 0.6);

    let center = desk.center_window().unwrap();
    let (col, _) = desk.workspace.grid.find(center).unwrap();
    desk.workspace.grid.widths[col] = fraction(0.7);
    store_center_width(&mut desk.workspace);

    let columns = desk.workspace.columns.as_ref().unwrap();
    assert!((f32::from_bits(columns.center.bits) - 0.7).abs() < 1e-3);
}

#[test]
fn grid_distributes_round_robin() {
    let (mut desk, ids) = setup(4);
    desk.grid(2, None);

    assert_eq!(desk.ids(), vec![vec![ids[0], ids[2]], vec![ids[1], ids[3]]]);
    assert!((desk.width(0) - 0.5).abs() < 1e-3);
}

#[test]
fn grid_appends_a_new_window_without_reshuffling() {
    let (mut desk, ids) = setup(4);
    desk.grid(2, None);

    let new_window = desk.add_window();
    desk.grid(2, Some(new_window));

    assert_eq!(desk.ids(), vec![vec![ids[0], ids[2], new_window], vec![ids[1], ids[3]]]);
}

#[test]
fn grid_requires_four_windows() {
    let (mut desk, _) = setup(3);
    desk.grid(2, None);
    assert_eq!(desk.workspace.grid.columns.len(), 3);
}

#[test]
fn toggle_columns_mode_cycles() {
    let (mut desk, _) = setup(5);
    let config = config_with_default_columns("C,*");
    assert_eq!(desk.workspace.columns_mode, ColumnsMode::MasterStackLeft);
    desk.toggle(None, &config);
    assert_eq!(desk.workspace.columns_mode, ColumnsMode::Grid);
    desk.toggle(None, &config);
    assert_eq!(desk.workspace.columns_mode, ColumnsMode::MasterStackRight);
    desk.toggle(None, &config);
    assert_eq!(desk.workspace.columns_mode, ColumnsMode::MasterStackLeft);
}

#[test]
fn master_stack_right_mirrors_the_spec() {
    let (mut desk, ids) = setup(3);
    let config = config_with_default_columns("C,*");

    desk.reapply(&config);
    assert_eq!(desk.ids(), vec![vec![ids[0]], vec![ids[1], ids[2]]]);

    desk.workspace.columns_mode = ColumnsMode::MasterStackRight;
    desk.reapply(&config);

    // `C,*` reverses to `*,C`: the same windows, mirrored, with the same
    // master.
    assert_eq!(desk.ids(), vec![vec![ids[1], ids[2]], vec![ids[0]]]);
    assert_eq!(desk.center_window(), Some(ids[0]));
}

#[test]
fn grid_armed_with_fewer_than_four_windows() {
    let (mut desk, _) = setup(3);
    let config = config_with_default_columns("C,*");
    desk.workspace.columns_mode = ColumnsMode::Grid;
    desk.reapply(&config);

    // Mode stays armed; layout falls back to master-stack.
    assert_eq!(desk.workspace.columns_mode, ColumnsMode::Grid);
    assert_eq!(desk.workspace.grid.columns.len(), 2);
}

#[test]
fn focus_remembers_last_focused_in_column() {
    let (mut desk, ids) = setup(5);
    let config = config_with_default_columns("C,*");

    // Layout: center [ids[0]] | stack [ids[1], ids[2], ids[3], ids[4]].
    // Focus starts on center.
    desk.apply("C,*", 0.5);
    desk.focus(ids[0]);

    // Navigate right, with no focus history yet: row 0.
    assert!(desk.focus_beside(ids[0], Direction::Right, &config));
    assert_eq!(desk.focused(), Some(ids[1]));

    // Navigate down to ids[3] (row 2 in the stack).
    assert!(desk.focus_beside(ids[1], Direction::Down, &config));
    assert_eq!(desk.focused(), Some(ids[2]));
    assert!(desk.focus_beside(ids[2], Direction::Down, &config));
    assert_eq!(desk.focused(), Some(ids[3]));

    // Navigate left back to center.
    assert!(desk.focus_beside(ids[3], Direction::Left, &config));
    assert_eq!(desk.focused(), Some(ids[0]));

    // Navigate right again: back to ids[3], the last-focused window in
    // the stack.
    assert!(desk.focus_beside(ids[0], Direction::Right, &config));
    assert_eq!(desk.focused(), Some(ids[3]));
}

#[test]
fn grid_focus_goes_straight_across() {
    let (mut desk, ids) = setup(5);
    let config = config_with_default_columns("C,*");

    desk.workspace.columns_mode = ColumnsMode::Grid;
    desk.reapply(&config);

    // Round-robin into two columns of unequal height: the left column's
    // three rows do not line up with the right column's two.
    assert_eq!(desk.ids(), vec![vec![ids[0], ids[2], ids[4]], vec![ids[1], ids[3]]]);

    // Leave the left column's focus history pointing at its top row.
    desk.focus(ids[0]);

    // Left out of the right column's bottom row lands on the window level
    // with it: the left column's bottom row, not the remembered ids[0].
    assert!(desk.focus_beside(ids[3], Direction::Left, &config));
    assert_eq!(desk.focused(), Some(ids[4]));

    // And back the other way.
    assert!(desk.focus_beside(ids[4], Direction::Right, &config));
    assert_eq!(desk.focused(), Some(ids[3]));
}

#[test]
fn fewer_than_two_windows_have_no_layout() {
    let (mut desk, ids) = setup(1);
    let default = config_with_default_columns("*,C,*");

    assert!(apply_columns(&mut desk.workspace, "*,C,*", fraction(0.6)).unwrap().is_none());
    assert_eq!(desk.workspace.master_window, None);
    assert!(reapply_assigned_columns(&mut desk.workspace, &default).unwrap().is_none());
    assert!(apply_rotate(&mut desk.workspace, false).is_none());
    assert!(apply_center(&mut desk.workspace, &desk.state).is_none());
    assert_eq!(desk.center_window(), Some(ids[0]));

    let (mut empty, _) = setup(0);
    assert_eq!(empty.center_window(), None);
    assert!(apply_grid(&empty.workspace, 2, None).is_none());
}

#[test]
fn a_rejected_spec_is_reported() {
    let (mut desk, _) = setup(3);
    let error = apply_columns(&mut desk.workspace, "x,C", fraction(0.6)).unwrap_err();
    assert_eq!(error, ColumnsError::Spec(SpecError::Token("x".to_string())));
    assert_eq!(error.message(), Some("Column `x` must be a number, `*`, or `C`.".to_string()));
    assert_eq!(desk.workspace.master_window, None);

    // A layout is assigned even where it is rejected.
    let error = assign_columns(&mut desk.workspace, "0,C", fraction(0.6)).unwrap_err();
    assert_eq!(error.message(), Some("Column count must be at least 1.".to_string()));
    assert!(desk.workspace.columns.is_some());

    let error = reapply_assigned_columns(
        &mut desk_from(1, 3).0.workspace,
        &config_with_default_columns("*"),
    )
    .unwrap_err();
    assert_eq!(
        error.message(),
        Some("Column spec must contain exactly one `C`.".to_string())
    );
}

#[test]
fn a_missing_monitor_is_reported() {
    let (mut desk, ids) = setup(3);

    let error = reapply_assigned_columns(&mut desk.workspace, &MonitorDefault::NoMonitor);
    assert_eq!(error.as_ref().unwrap_err(), &ColumnsError::NoMonitor);
    assert_eq!(error.unwrap_err().message(), Some("No monitor.".to_string()));

    let error = toggle_columns_mode(&mut desk.workspace, None, &MonitorDefault::NoMonitorRect);
    assert_eq!(error.as_ref().unwrap_err(), &ColumnsError::NoMonitorRect);
    assert_eq!(error.unwrap_err().message(), None);
    assert_eq!(desk.workspace.columns_mode, ColumnsMode::Grid);

    let error = desk.ask_move(ids[0], Direction::Up, &MonitorDefault::NoMonitor);
    assert!(matches!(error, Err(ColumnsError::NoMonitor)));

    // An assignment needs no monitor.
    desk.assign("C,*", 0.5);
    assert!(effective_columns(&desk.workspace, &MonitorDefault::NoMonitor).unwrap().is_some());
}

#[test]
fn a_failure_at_the_source_leaves_the_target_alone() {
    let (mut from, _) = desk_from(1, 3);
    let (mut to, _) = desk_from(101, 3);
    let result = reapply_columns_after_move(
        &mut from.workspace,
        &mut to.workspace,
        id(101),
        &MonitorDefault::NoMonitor,
        &config_with_default_columns("C,*"),
    );
    assert!(matches!(result, Err(ColumnsError::NoMonitor)));
    assert_eq!(to.workspace.master_window, None);
}

#[test]
fn the_fourth_window_turns_an_armed_grid_on() {
    let (mut desk, ids) = setup(3);
    let config = config_with_default_columns("C,*");
    desk.workspace.columns_mode = ColumnsMode::Grid;
    desk.reapply(&config);

    let new_window = desk.add_window();
    desk.reapply_for(new_window, &config);

    assert_eq!(desk.ids(), vec![vec![ids[0], ids[2]], vec![ids[1], new_window]]);
}

#[test]
fn a_forced_mode_is_taken() {
    let (mut desk, ids) = setup(3);
    let config = config_with_default_columns("C,*");
    desk.toggle(Some(ColumnsMode::MasterStackRight), &config);
    assert_eq!(desk.workspace.columns_mode, ColumnsMode::MasterStackRight);
    assert_eq!(desk.ids(), vec![vec![ids[1], ids[2]], vec![ids[0]]]);
}

#[test]
fn mirrored_specs() {
    assert_eq!(reverse_spec("C,*"), "*,C");
    assert_eq!(reverse_spec("*,C,*"), "*,C,*");
    assert_eq!(reverse_spec("2, 1,C,,3"), "3,,C, 1,2");
    assert_eq!(reverse_spec(&reverse_spec("2, 1,C,,3")), "2, 1,C,,3");
    assert_eq!(reverse_spec(""), "");
}

#[test]
fn a_rotation_keeps_the_focused_slot_and_survives_a_reapply() {
    let (mut desk, ids) = setup(5);
    let config = config_with_default_columns("*,C,*");
    desk.reapply(&config);
    desk.focus(ids[3]);
    desk.rotate(false);

    // ids[3] was at the bottom of the left column, where ids[4] is now.
    assert_eq!(desk.focused(), Some(ids[4]));

    let expected = desk.ids();
    desk.reapply(&config);
    assert_eq!(desk.ids(), expected);
    assert_eq!(desk.center_window(), Some(ids[1]));
}

#[test]
fn a_swap_into_the_center_survives_a_reapply() {
    let (mut desk, ids) = setup(6);
    let config = config_with_default_columns("2,C,*");
    desk.reapply(&config);
    desk.focus(ids[5]);
    desk.center();
    let expected = desk.ids();
    desk.reapply(&config);
    assert_eq!(desk.ids(), expected);
    assert_eq!(desk.center_window(), Some(ids[5]));
    assert_eq!(desk.state.last_centered_out, Some(ids[0]));
}

#[test]
fn centering_without_a_toggle_target_does_nothing() {
    let (mut desk, ids) = setup(3);
    desk.apply("C,*", 0.5);
    desk.focus(ids[0]);
    assert!(apply_center(&mut desk.workspace, &desk.state).is_none());

    // A toggle target that has left the workspace does not count.
    desk.state.last_centered_out = Some(id(99));
    assert!(apply_center(&mut desk.workspace, &desk.state).is_none());

    // Nor does one that is the center itself.
    desk.state.last_centered_out = Some(ids[0]);
    assert!(apply_center(&mut desk.workspace, &desk.state).is_none());

    // Without a focused tiling window there is nothing to swap.
    desk.workspace.focus_order = vec![Container::Other(id(50))];
    assert!(apply_center(&mut desk.workspace, &desk.state).is_none());
}

#[test]
fn a_move_up_is_undone_by_a_move_down() {
    let (mut desk, ids) = setup(5);
    let config = config_with_default_columns("C,*");
    desk.reapply(&config);
    let expected = desk.ids();
    assert!(desk.move_window(ids[3], Direction::Up, &config));
    assert_ne!(desk.ids(), expected);
    assert!(desk.move_window(ids[3], Direction::Down, &config));
    assert_eq!(desk.ids(), expected);
}

#[test]
fn moving_the_center_out_promotes_the_window_it_swaps_with() {
    let (mut desk, ids) = setup(5);
    let config = config_with_default_columns("*,C,*");
    desk.reapply(&config);
    assert!(desk.move_window(ids[0], Direction::Left, &config));
    assert_eq!(desk.ids(), vec![vec![ids[0], ids[3]], vec![ids[1]], vec![ids[2], ids[4]]]);
    assert_eq!(desk.center_window(), Some(ids[1]));
    assert_eq!(desk.focused(), Some(ids[0]));

    let expected = desk.ids();
    desk.reapply(&config);
    assert_eq!(desk.ids(), expected);
}

#[test]
fn windows_outside_the_layout_are_not_handled() {
    let (mut desk, ids) = setup(3);
    let config = config_with_default_columns("C,*");
    let beside = Beside { overlaps: Vec::new(), remembered: None };
    let floating = WindowContainer::NonTilingWindow(ids[0]);
    let tiling = WindowContainer::TilingWindow(ids[0]);
    let stranger = WindowContainer::TilingWindow(id(99));

    for (window, with_workspace) in [(floating, true), (tiling, false), (stranger, true)] {
        let workspace = if with_workspace { Some(&mut desk.workspace) } else { None };
        let action =
            move_window_in_columns(window, Direction::Up, workspace, &beside, &config).unwrap();
        assert!(matches!(action, MoveAction::NotHandled));

        let workspace = if with_workspace { Some(&desk.workspace) } else { None };
        let target =
            focus_in_columns(window, Direction::Up, workspace, &beside, &config).unwrap();
        assert_eq!(target, None);
    }
}

#[test]
fn focus_stops_at_the_edge() {
    let (mut desk, ids) = setup(3);
    let config = config_with_default_columns("C,*");
    desk.reapply(&config);
    assert!(!desk.focus_beside(ids[0], Direction::Left, &config));
    assert!(!desk.focus_beside(ids[0], Direction::Up, &config));
    assert!(!desk.focus_beside(ids[2], Direction::Right, &config));
    assert!(!desk.focus_beside(ids[2], Direction::Down, &config));
    assert!(!desk.focus_beside(ids[2], Direction::Left, &no_default()));
    assert!(desk.focus_beside(ids[2], Direction::Up, &config));
    assert_eq!(desk.focused(), Some(ids[1]));
}

#[test]
fn the_level_row_overlaps_the_most() {
    let bits = |values: &[f32]| values.iter().map(|value| value.to_bits()).collect::<Vec<u32>>();

    assert_eq!(straight_across_row(&bits(&[0.1, 0.4, 0.3])), Some(1));
    assert_eq!(straight_across_row(&bits(&[0.0, 0.25, 0.25])), Some(1));
    assert_eq!(straight_across_row(&bits(&[0.0, 0.0])), Some(0));
    assert_eq!(straight_across_row(&bits(&[1.0e-30, 1.0])), Some(1));
    assert_eq!(straight_across_row(&Vec::new()), None);
}

#[test]
fn a_resize_sizes_the_next_layout() {
    let (mut desk, _) = setup(5);
    desk.assign("*,C,*", 0.6);
    desk.workspace.grid.widths[1] = fraction(0.7);
    store_center_width(&mut desk.workspace);
    desk.reapply(&no_default());
    assert!((desk.width(1) - 0.7).abs() < 1e-3);
    assert!((desk.width(0) - 0.15).abs() < 1e-3);

    // Without an assignment nothing is stored.
    unassign_columns(&mut desk.workspace);
    store_center_width(&mut desk.workspace);
    assert!(desk.workspace.columns.is_none());
}

#[test]
fn a_single_window_has_no_center_width() {
    let (mut desk, _) = setup(1);
    desk.assign("*,C,*", 0.6);
    desk.workspace.grid.widths[0] = fraction(0.9);
    store_center_width(&mut desk.workspace);
    assert_eq!(desk.workspace.columns.as_ref().unwrap().center, fraction(0.6));
}

#[test]
fn a_stale_designation_is_repaired() {
    let (mut desk, ids) = setup(3);
    desk.workspace.master_window = Some(id(99));
    assert_eq!(desk.center_window(), Some(ids[0]));
    assert_eq!(desk.workspace.master_window, Some(ids[0]));

    desk.workspace.master_window = Some(ids[2]);
    assert_eq!(desk.center_window(), Some(ids[2]));
}

#[test]
fn a_surplus_in_a_shorter_last_column_is_redealt() {
    // All the side columns are fixed and full, and the last one is the
    // shorter: its surplus is not read back in the order it was dealt.
    let (mut desk, _) = setup(7);
    let config = config_with_default_columns("3,1,C");
    desk.reapply(&config);
    let first = desk.ids();
    desk.reapply(&config);
    assert_ne!(desk.ids(), first);
}

#[test]
fn the_center_width_is_clamped() {
    for value in [
        0.0,
        -0.0,
        -1.0,
        0.05,
        0.099_999,
        0.1,
        0.100_001,
        0.5,
        0.899_999,
        0.9,
        0.900_001,
        1.0,
        7.5,
        f32::MIN,
        f32::MAX,
        f32::MIN_POSITIVE,
        f32::INFINITY,
        f32::NEG_INFINITY,
    ] {
        let clamped = fraction(value).clamp_center();
        assert_eq!(f32::from_bits(clamped.bits), value.clamp(0.1, 0.9), "{value}");
    }
    assert!(f32::from_bits(fraction(f32::NAN).clamp_center().bits).is_nan());
    assert!(f32::from_bits(fraction(-f32::NAN).clamp_center().bits).is_nan());

    let (mut desk, _) = setup(3);
    desk.assign("C,*", 0.95);
    assert!((desk.width(0) - 0.9).abs() < 1e-3);
    assert_eq!(desk.workspace.columns.as_ref().unwrap().center, fraction(0.95));
}

#[test]
fn closing_the_master_promotes_the_first_window_and_keeps_the_order() {
    let (mut desk, ids) = setup(5);
    let config = config_with_default_columns("*,C,*");
    desk.reapply(&config);
    assert_eq!(desk.ids(), vec![vec![ids[1], ids[3]], vec![ids[0]], vec![ids[2], ids[4]]]);

    desk.leave(ids[0]);
    desk.reapply(&config);

    // The other windows are dealt anew, in their order.
    assert_eq!(desk.ids(), vec![vec![ids[2], ids[4]], vec![ids[1]], vec![ids[3]]]);
}

#[test]
fn a_layout_holds_every_window_once() {
    for spec in ["*,C,*", "C,*", "2,1,C,3", "1,C", "*,C"] {
        for mode in [ColumnsMode::MasterStackLeft, ColumnsMode::Grid, ColumnsMode::MasterStackRight] {
            for count in 2..9 {
                let (mut desk, ids) = setup(count);
                desk.workspace.columns_mode = mode;
                desk.reapply(&config_with_default_columns(spec));
                let mut windows: Vec<u128> =
                    desk.ids().concat().iter().map(|window| window.bits).collect();
                windows.sort_unstable();
                assert_eq!(windows, ids.iter().map(|window| window.bits).collect::<Vec<_>>());
            }
        }
    }
}

#[test]
fn rotates_up_each_of_several_left_columns() {
    let (mut desk, ids) = setup(4);
    desk.apply("1,1,C,1", 0.6);
    assert_eq!(desk.ids(), vec![vec![ids[1]], vec![ids[2]], vec![ids[0]], vec![ids[3]]]);

    // The bottom-right window wraps to the bottom-left slot.
    desk.rotate(false);
    assert_eq!(desk.ids(), vec![vec![ids[3]], vec![ids[1]], vec![ids[2]], vec![ids[0]]]);
    assert_eq!(desk.workspace.grid.find(ids[3]), Some((0, 0)));
    assert_eq!(desk.workspace.grid.find(ids[0]), Some((3, 0)));
    assert_eq!(desk.center_window(), Some(ids[2]));

    desk.rotate(true);
    assert_eq!(desk.ids(), vec![vec![ids[1]], vec![ids[2]], vec![ids[0]], vec![ids[3]]]);
}

#[test]
fn rotates_deep_left_columns_bottom_to_top() {
    let (mut desk, ids) = setup(8);
    desk.apply("2,3,C,2", 0.6);
    assert_eq!(
        desk.ids(),
        vec![
            vec![ids[1], ids[4]],
            vec![ids[2], ids[5], ids[7]],
            vec![ids[0]],
            vec![ids[3], ids[6]]
        ]
    );

    // Up the first column, up the second, through the center and down.
    desk.rotate(false);
    assert_eq!(
        desk.ids(),
        vec![
            vec![ids[4], ids[6]],
            vec![ids[5], ids[7], ids[1]],
            vec![ids[2]],
            vec![ids[0], ids[3]]
        ]
    );
}

#[test]
fn rotating_cycles_every_window_through_the_focused_slot() {
    for ccw in [false, true] {
        let (mut desk, ids) = setup(7);
        desk.apply("2,1,C,*", 0.6);
        desk.focus(ids[2]);
        let place = desk.workspace.grid.find(ids[2]);
        let start = desk.ids();

        let mut seen = Vec::new();
        for turn in 1..=ids.len() {
            desk.rotate(ccw);
            let focused = desk.focused().unwrap();
            assert_eq!(desk.workspace.grid.find(focused), place);
            assert_eq!(desk.ids() == start, turn == ids.len());
            seen.push(focused.bits);
        }
        seen.sort_unstable();
        assert_eq!(seen, ids.iter().map(|id| id.bits).collect::<Vec<_>>());
    }
}

#[test]
fn empty_columns_are_dropped_with_their_widths() {
    let arrangement = Arrangement {
        columns: vec![Vec::new(), vec![id(1), id(2)], Vec::new(), vec![id(3)]],
        widths: vec![
            ColumnWidth::Even(1),
            ColumnWidth::Even(2),
            ColumnWidth::Even(3),
            ColumnWidth::Even(4),
        ],
    };
    let shown = arrangement.without_empty_columns();

    assert_eq!(shown.columns, vec![vec![id(1), id(2)], vec![id(3)]]);
    assert_eq!(shown.widths, vec![ColumnWidth::Even(2), ColumnWidth::Even(4)]);

    // A wide spec degrades on a small workspace.
    let (mut desk, ids) = setup(2);
    desk.apply("*,*,C,*", 0.6);
    assert_eq!(desk.ids(), vec![vec![ids[1]], vec![ids[0]]]);
    assert_eq!(desk.workspace.grid.widths.len(), 2);
}

#[test]
fn a_sideways_focus_finds_a_window() {
    for mode in [ColumnsMode::MasterStackLeft, ColumnsMode::Grid, ColumnsMode::MasterStackRight] {
        for count in 2..8 {
            let (mut desk, ids) = setup(count);
            let config = config_with_default_columns("2,C,*");
            desk.workspace.columns_mode = mode;
            desk.reapply(&config);
            for window in ids {
                let (col, _) = desk.workspace.grid.find(window).unwrap();
                let last = desk.workspace.grid.columns.len() - 1;
                if desk.focus_beside(window, Direction::Left, &config) {
                    let found = desk.workspace.grid.find(desk.focused().unwrap()).unwrap();
                    assert_eq!(found.0, col - 1);
                } else {
                    assert_eq!(col, 0);
                }
                if desk.focus_beside(window, Direction::Right, &config) {
                    let found = desk.workspace.grid.find(desk.focused().unwrap()).unwrap();
                    assert_eq!(found.0, col + 1);
                } else {
                    assert_eq!(col, last);
                }
            }
        }
    }
}
