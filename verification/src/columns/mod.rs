//! The `columns` feature: declarative, centered-focus column layouts.
//!
//! Layout is split across these concerns:
//! - [`spec`]: parsing of a column spec and distribution of windows into
//!   columns.
//! - [`deal`]: the order in which windows are dealt, and its laws.
//! - [`grid`] and [`reading`]: the columns that a workspace shows, and the
//!   order in which they are read back.
//! - [`master`]: which window occupies the center column.
//! - [`ring`]: the loop of slots around the center column.
//! - [`rearrange`]: the commands that move windows and focus within the
//!   columns.
//! - [`mirror`], [`places`], [`laws`] and [`changes`]: what holds of
//!   mirrored specs, of the places of windows, of layouts that are
//!   reapplied, and of rearrangements.
//! - [`arranging`], [`behaviour`] and [`tokens`]: what laying a workspace
//!   out, rearranging it and reading a spec do, place by place.
//! - this module: the commands that apply and reapply layouts.

pub mod arranging;
pub mod behaviour;
pub mod changes;
pub mod deal;
pub mod grid;
pub mod laws;
pub mod master;
pub mod mirror;
pub mod places;
pub mod reading;
pub mod rearrange;
pub mod ring;
pub mod spec;
pub mod tokens;

use crate::columns::deal::{distributed, grid_columns, round_robin, stacked};
use crate::columns::grid::{cells, total, Arrangement, ColumnWidth, Layout};
use crate::columns::master::{
    center_width, master_of, measured, ordered, ordered_windows, resolve_master,
    workspace_center_width,
};
use crate::columns::reading::other_than;
use crate::columns::spec::{
    clones_are_equal, column_widths, distribute_columns, fault_message, lemma_distributed,
    parse_columns_spec, parsed_spec, template_widths, ColumnKind, SpecError, SpecFault,
};
use crate::state::{ColumnLayout, ColumnsMode, ContainerId, Fraction, Workspace};
use crate::text::{joined, pieces, split};
use vstd::prelude::*;
use vstd::string::StringExecFns;

verus! {

/// Why a columns command failed.
#[derive(Debug, PartialEq, Eq)]
pub enum ColumnsError {
    /// The column spec was rejected.
    Spec(SpecError),
    /// The workspace is on no monitor.
    NoMonitor,
    /// The monitor's rectangle could not be read.
    NoMonitorRect,
}

/// What a [`ColumnsError`] says.
pub enum ColumnsFault {
    /// See [`ColumnsError::Spec`].
    Spec(SpecFault),
    /// See [`ColumnsError::NoMonitor`].
    NoMonitor,
    /// See [`ColumnsError::NoMonitorRect`].
    NoMonitorRect,
}

impl View for ColumnsError {
    type V = ColumnsFault;

    open spec fn view(&self) -> ColumnsFault {
        match self {
            ColumnsError::Spec(error) => ColumnsFault::Spec(error@),
            ColumnsError::NoMonitor => ColumnsFault::NoMonitor,
            ColumnsError::NoMonitorRect => ColumnsFault::NoMonitorRect,
        }
    }
}

impl ColumnsError {
    /// The message to be shown. Where a monitor's rectangle could not be
    /// read there is none: the platform's own error is shown.
    pub fn message(&self) -> (message: Option<String>)
        ensures
            match message {
                Some(message) => match self@ {
                    ColumnsFault::Spec(fault) => message@ == fault_message(fault),
                    ColumnsFault::NoMonitor => message@ == "No monitor."@,
                    ColumnsFault::NoMonitorRect => false,
                },
                None => self@ is NoMonitorRect,
            },
    {
        match self {
            ColumnsError::Spec(error) => Some(error.message()),
            ColumnsError::NoMonitor => Some("No monitor.".to_owned()),
            ColumnsError::NoMonitorRect => None,
        }
    }
}

/// What the configured default columns say of a workspace's monitor.
#[derive(Debug)]
pub enum MonitorDefault {
    /// No default columns are configured.
    Unconfigured,
    /// The workspace is on no monitor.
    NoMonitor,
    /// The monitor's rectangle could not be read.
    NoMonitorRect,
    /// The columns of the first rule whose band contains the monitor's
    /// aspect ratio, if there is one and it names columns.
    Matched(Option<ColumnLayout>),
}

/// What a layout to be shown holds.
pub open spec fn shown(arrangement: Option<Arrangement>) -> Option<Layout> {
    match arrangement {
        Some(arrangement) => Some(arrangement@),
        None => None,
    }
}

/// What a columns command came to.
pub open spec fn outcome(result: Result<Option<Arrangement>, ColumnsError>) -> Result<
    Option<Layout>,
    ColumnsFault,
> {
    match result {
        Ok(arrangement) => Ok(shown(arrangement)),
        Err(error) => Err(error@),
    }
}

/// The windows other than the master.
pub open spec fn others(windows: Seq<ContainerId>, master: ContainerId) -> Seq<ContainerId> {
    windows.filter(other_than(master))
}

/// The layout of a workspace's windows per the parsed `kinds`, with `last`
/// forced to the end of the window order. There is none for fewer than two
/// windows.
pub open spec fn spec_layout(
    workspace: Workspace,
    kinds: Seq<ColumnKind>,
    center: Fraction,
    last: Option<ContainerId>,
) -> Option<Layout> {
    let windows = ordered(workspace.grid@.columns, last);
    match master_of(workspace.master_window, windows) {
        Some(master) => if windows.len() < 2 {
            None
        } else {
            Some(
                Layout {
                    columns: distributed(kinds, master, others(windows, master)),
                    widths: template_widths(kinds, center.within_limits()),
                },
            )
        },
        None => None,
    }
}

/// What applying a spec comes to.
pub open spec fn spec_outcome(
    workspace: Workspace,
    spec: Seq<char>,
    center: Fraction,
    last: Option<ContainerId>,
) -> Result<Option<Layout>, ColumnsFault> {
    match parsed_spec(spec) {
        Ok(kinds) => Ok(spec_layout(workspace, kinds, center, last)),
        Err(fault) => Err(ColumnsFault::Spec(fault)),
    }
}

/// The workspace once a spec was applied: a layout designates the window
/// it centers.
pub open spec fn spec_after(
    workspace: Workspace,
    spec: Seq<char>,
    last: Option<ContainerId>,
) -> Workspace {
    let windows = ordered(workspace.grid@.columns, last);
    if parsed_spec(spec) is Ok && windows.len() >= 2 {
        workspace.with_master(master_of(workspace.master_window, windows))
    } else {
        workspace
    }
}

/// The round-robin layout of a workspace's windows in `count` equal
/// columns. There is none for fewer than four windows.
pub open spec fn grid_layout(
    workspace: Workspace,
    count: nat,
    last: Option<ContainerId>,
) -> Option<Layout> {
    let windows = ordered(workspace.grid@.columns, last);
    if windows.len() < 4 || count == 0 {
        None
    } else {
        Some(
            Layout {
                columns: grid_columns(count, windows),
                widths: Seq::new(count, |col: int| ColumnWidth::Even(count as usize)),
            },
        )
    }
}

/// The columns that a workspace should currently use: its own assigned
/// columns if set, otherwise its monitor's default.
pub open spec fn effective(workspace: Workspace, default: MonitorDefault) -> Result<
    Option<ColumnLayout>,
    ColumnsFault,
> {
    match workspace.columns {
        Some(columns) => Ok(Some(columns)),
        None => match default {
            MonitorDefault::Unconfigured => Ok(None),
            MonitorDefault::NoMonitor => Err(ColumnsFault::NoMonitor),
            MonitorDefault::NoMonitorRect => Err(ColumnsFault::NoMonitorRect),
            MonitorDefault::Matched(columns) => Ok(columns),
        },
    }
}

/// A spec with its columns from right to left.
pub open spec fn reversed_spec(spec: Seq<char>) -> Seq<char> {
    joined(pieces(spec, ',').reverse(), ',')
}

/// The spec that a mode makes of the assigned one.
pub open spec fn mode_spec(mode: ColumnsMode, spec: Seq<char>) -> Seq<char> {
    if mode == ColumnsMode::MasterStackRight {
        reversed_spec(spec)
    } else {
        spec
    }
}

/// Whether a workspace is laid out as a grid: in grid mode with at least
/// four windows.
pub open spec fn grid_applies(workspace: Workspace) -> bool {
    workspace.columns_mode == ColumnsMode::Grid && total(workspace.grid@.columns) >= 4
}

/// What reapplying a workspace's columns comes to.
pub open spec fn reapply_outcome(
    workspace: Workspace,
    last: Option<ContainerId>,
    default: MonitorDefault,
) -> Result<Option<Layout>, ColumnsFault> {
    match effective(workspace, default) {
        Err(fault) => Err(fault),
        Ok(None) => Ok(None),
        Ok(Some(columns)) => if grid_applies(workspace) {
            Ok(grid_layout(workspace, 2, last))
        } else {
            spec_outcome(
                workspace,
                mode_spec(workspace.columns_mode, columns.spec@),
                columns.center,
                last,
            )
        },
    }
}

/// The workspace once its columns were reapplied.
pub open spec fn reapply_after(
    workspace: Workspace,
    last: Option<ContainerId>,
    default: MonitorDefault,
) -> Workspace {
    match effective(workspace, default) {
        Ok(Some(columns)) => if grid_applies(workspace) {
            workspace
        } else {
            spec_after(workspace, mode_spec(workspace.columns_mode, columns.spec@), last)
        },
        _ => workspace,
    }
}

/// The next mode in the cycle.
pub open spec fn next_mode(mode: ColumnsMode) -> ColumnsMode {
    match mode {
        ColumnsMode::MasterStackLeft => ColumnsMode::Grid,
        ColumnsMode::Grid => ColumnsMode::MasterStackRight,
        ColumnsMode::MasterStackRight => ColumnsMode::MasterStackLeft,
    }
}

/// Arranges the workspace into a centered-focus layout described by a
/// comma-separated column `spec`, laid out left to right. Each token is
/// one column: a number is that many windows stacked, `*` shares the
/// leftover windows, and `C` is the wide center (exactly one). E.g.
/// `*,C,*` is a center flanked by two even stacks, `C,*` drops the left
/// band for a narrow monitor, and `2,1,C,3` is fully explicit.
///
/// The `C` column holds the workspace's master window at `center` width (a
/// fraction of the workspace, clamped to a tenth and nine tenths); the
/// remaining columns split the rest of the width evenly. Returns the
/// layout to be shown, if there is one; columns that end up empty are
/// dropped from it (see [`Arrangement::without_empty_columns`]). Applying a layout that can be read
/// back twice changes nothing (see [`laws::applying_is_idempotent`]).
pub fn apply_columns(workspace: &mut Workspace, spec: &str, center: Fraction) -> (result: Result<
    Option<Arrangement>,
    ColumnsError,
>)
    ensures
        outcome(result) == spec_outcome(*old(workspace), spec@, center, None),
        *final(workspace) == spec_after(*old(workspace), spec@, None),
{
    apply_spec(workspace, spec, center, None)
}

/// Applies a column `spec`, optionally forcing `last` to the end of the
/// workspace's window order.
///
/// `last` is the window that has just been added to the workspace.
/// Moving it to the end of the order means it takes the next free slot
/// and every window already on screen keeps its column and its row.
pub fn apply_spec(
    workspace: &mut Workspace,
    spec: &str,
    center: Fraction,
    last: Option<ContainerId>,
) -> (result: Result<Option<Arrangement>, ColumnsError>)
    ensures
        outcome(result) == spec_outcome(*old(workspace), spec@, center, last),
        *final(workspace) == spec_after(*old(workspace), spec@, last),
{
    let kinds: Vec<ColumnKind> = match parse_columns_spec(spec) {
        Ok(kinds) => kinds,
        Err(error) => return Err(ColumnsError::Spec(error)),
    };
    let windows: Vec<ContainerId> = ordered_windows(workspace, last);
    if windows.len() < 2 {
        return Ok(None);
    }
    let master: ContainerId = match resolve_master(workspace, &windows) {
        Some(master) => master,
        None => return Ok(None),
    };
    let rest: Vec<ContainerId> = without(&windows, master);
    let columns: Vec<Vec<ContainerId>> = distribute_columns(&kinds, master, rest);
    let widths: Vec<ColumnWidth> = column_widths(&kinds, center.clamp_center());
    let arrangement = Arrangement { columns, widths };
    proof {
        assert(clones_are_equal::<ContainerId>());
        lemma_distributed(
            kinds@,
            master,
            others(windows@, master),
            cells(arrangement.columns@),
        );
    }
    Ok(Some(arrangement))
}

/// The windows other than `master`, in their order.
pub(crate) fn without(windows: &Vec<ContainerId>, master: ContainerId) -> (rest: Vec<ContainerId>)
    ensures
        rest@ == others(windows@, master),
{
    let ghost keep = other_than(master);
    let mut rest: Vec<ContainerId> = Vec::new();
    let mut i: usize = 0;
    proof {
        reveal(Seq::filter);
    }
    while i < windows.len()
        invariant
            i <= windows.len(),
            keep == other_than(master),
            rest@ == windows@.take(i as int).filter(keep),
        decreases windows.len() - i,
    {
        proof {
            assert(windows@.take(i + 1) =~= windows@.take(i as int).push(windows@[i as int]));
            windows@.take(i as int).lemma_filter_push(windows@[i as int], keep);
        }
        if windows[i] != master {
            rest.push(windows[i]);
        }
        i += 1;
    }
    assert(windows@.take(i as int) =~= windows@);
    rest
}

/// Arranges the workspace into an equal-width grid, dealing windows
/// round-robin across the columns in canonical order.
///
/// Because the order is the container tree's reading order and a new
/// window is forced to the end of it, dealing round-robin drops the new
/// window at the bottom of the next column and leaves every other window
/// exactly where it was.
///
/// Requires at least 4 tiling windows; the caller falls back to
/// master-stack when fewer are present.
pub fn apply_grid(workspace: &Workspace, num_columns: usize, last: Option<ContainerId>) -> (result:
    Option<Arrangement>)
    ensures
        shown(result) == grid_layout(*workspace, num_columns as nat, last),
{
    let windows: Vec<ContainerId> = ordered_windows(workspace, last);
    if windows.len() < 4 || num_columns == 0 {
        return None;
    }
    let mut columns: Vec<Vec<ContainerId>> = Vec::new();
    let mut widths: Vec<ColumnWidth> = Vec::new();
    let mut col: usize = 0;
    while col < num_columns
        invariant
            col <= num_columns,
            columns@.len() == col,
            widths@.len() == col,
            forall|c: int| 0 <= c < col ==> (#[trigger] columns@[c])@.len() == 0,
            forall|c: int| 0 <= c < col ==> #[trigger] widths@[c] == ColumnWidth::Even(num_columns),
        decreases num_columns - col,
    {
        columns.push(Vec::new());
        widths.push(ColumnWidth::Even(num_columns));
        col += 1;
    }
    let ghost place = round_robin(num_columns as nat);
    let mut i: usize = 0;
    while i < windows.len()
        invariant
            i <= windows.len(),
            num_columns > 0,
            columns@.len() == num_columns,
            place == round_robin(num_columns as nat),
            forall|c: int|
                0 <= c < num_columns ==> (#[trigger] columns@[c])@ == stacked(
                    place,
                    windows@.take(i as int),
                    c,
                ),
        decreases windows.len() - i,
    {
        let target: usize = i % num_columns;
        let ghost before = columns@;
        columns[target].push(windows[i]);
        proof {
            assert(windows@.take(i + 1).drop_last() =~= windows@.take(i as int));
            assert(place(i as nat) == target);
            assert forall|c: int| 0 <= c < num_columns implies (#[trigger] columns@[c])@ == stacked(
                place,
                windows@.take(i + 1),
                c,
            ) by {
                assert(before[c]@ == stacked(place, windows@.take(i as int), c));
            }
        }
        i += 1;
    }
    let arrangement = Arrangement { columns, widths };
    proof {
        assert(windows@.take(i as int) =~= windows@);
        assert(cells(arrangement.columns@) =~= grid_columns(num_columns as nat, windows@));
        assert(arrangement.widths@ =~= Seq::new(
            num_columns as nat,
            |col: int| ColumnWidth::Even(num_columns),
        ));
    }
    Some(arrangement)
}

/// Assigns a column layout to the workspace and applies it immediately.
/// The assignment is stored on the workspace and reapplied whenever the
/// workspace is focused, until it is unassigned or the config is
/// reloaded.
pub fn assign_columns(workspace: &mut Workspace, spec: &str, center: Fraction) -> (result: Result<
    Option<Arrangement>,
    ColumnsError,
>)
    ensures
        outcome(result) == spec_outcome(*old(workspace), spec@, center, None),
        final(workspace).columns matches Some(columns) && columns.spec@ == spec@ && columns.center
            == center,
        *final(workspace) == spec_after(*old(workspace), spec@, None).with_columns(
            final(workspace).columns,
        ),
{
    workspace.columns = Some(ColumnLayout { spec: spec.to_owned(), center });
    apply_columns(workspace, spec, center)
}

/// Clears any column layout assigned to the workspace, so switching to it
/// no longer reapplies a layout. The current arrangement is left
/// untouched.
pub fn unassign_columns(workspace: &mut Workspace)
    ensures
        *final(workspace) == old(workspace).with_columns(None),
{
    workspace.columns = None;
}

/// Resolves the columns a workspace should currently use: its own assigned
/// `columns` if set, otherwise what the default columns say of its
/// monitor.
///
/// Returns `None` when the workspace has no assignment and matches no
/// default rule (or matches a rule without columns), in which case the
/// workspace keeps the default tiling.
pub fn effective_columns<'a>(workspace: &'a Workspace, default: &'a MonitorDefault) -> (columns:
    Result<Option<&'a ColumnLayout>, ColumnsError>)
    ensures
        match columns {
            Ok(Some(columns)) => effective(*workspace, *default) == Ok::<
                Option<ColumnLayout>,
                ColumnsFault,
            >(Some(*columns)),
            Ok(None) => effective(*workspace, *default) == Ok::<Option<ColumnLayout>, ColumnsFault>(
                None,
            ),
            Err(error) => effective(*workspace, *default) == Err::<
                Option<ColumnLayout>,
                ColumnsFault,
            >(error@),
        },
{
    match &workspace.columns {
        Some(columns) => Ok(Some(columns)),
        None => match default {
            MonitorDefault::Unconfigured => Ok(None),
            MonitorDefault::NoMonitor => Err(ColumnsError::NoMonitor),
            MonitorDefault::NoMonitorRect => Err(ColumnsError::NoMonitorRect),
            MonitorDefault::Matched(columns) => match columns {
                Some(columns) => Ok(Some(columns)),
                None => Ok(None),
            },
        },
    }
}

/// Reapplies the workspace's effective columns. In master-stack mode the
/// master window occupies the `C` column; in grid mode windows are dealt
/// round-robin. A no-op when nothing resolves or the workspace has fewer
/// than two tiling windows.
pub fn reapply_assigned_columns(workspace: &mut Workspace, default: &MonitorDefault) -> (result:
    Result<Option<Arrangement>, ColumnsError>)
    ensures
        outcome(result) == reapply_outcome(*old(workspace), None, *default),
        *final(workspace) == reapply_after(*old(workspace), None, *default),
{
    reapply_columns(workspace, None, default)
}

/// Reapplies the workspace's effective columns after `appended` has just
/// been added to it.
///
/// The new window is placed last in the workspace's window order, so it
/// takes the next free slot and no window already on screen moves.
pub fn reapply_columns_for_new_window(
    workspace: &mut Workspace,
    appended: ContainerId,
    default: &MonitorDefault,
) -> (result: Result<Option<Arrangement>, ColumnsError>)
    ensures
        outcome(result) == reapply_outcome(*old(workspace), Some(appended), *default),
        *final(workspace) == reapply_after(*old(workspace), Some(appended), *default),
{
    reapply_columns(workspace, Some(appended), default)
}

/// Reapplies the workspace's effective columns for its current mode.
pub fn reapply_columns(
    workspace: &mut Workspace,
    last: Option<ContainerId>,
    default: &MonitorDefault,
) -> (result: Result<Option<Arrangement>, ColumnsError>)
    ensures
        outcome(result) == reapply_outcome(*old(workspace), last, *default),
        *final(workspace) == reapply_after(*old(workspace), last, *default),
{
    let mode: ColumnsMode = workspace.columns_mode;
    let (spec, center) = match effective_columns(workspace, default) {
        Ok(Some(columns)) => {
            // The mirror image is expressed by reversing the spec: `C,*`
            // becomes `*,C`. A spec that is already symmetric (`*,C,*`)
            // reverses to itself.
            let spec: String = if mode == ColumnsMode::MasterStackRight {
                reverse_spec(&columns.spec)
            } else {
                columns.spec.clone()
            };
            (spec, columns.center)
        },
        Ok(None) => return Ok(None),
        Err(error) => return Err(error),
    };

    // Grid needs at least 4 windows. While armed with fewer, the layout
    // falls back to master-stack; the mode stays `Grid` so the next window
    // addition applies the grid once the threshold is met.
    if mode == ColumnsMode::Grid && workspace.grid.window_count() >= 4 {
        return Ok(apply_grid(workspace, 2, last));
    }
    apply_spec(workspace, &spec, center, last)
}

/// The layouts of the two workspaces between which a window moved.
#[derive(Debug)]
pub struct AfterMove {
    /// The layout of the workspace that the window left.
    pub source: Option<Arrangement>,
    /// The layout of the workspace that the window joined, or why there is
    /// none.
    pub target: Result<Option<Arrangement>, ColumnsError>,
}

/// Reapplies assigned columns after the tiling window `moved` travels
/// from `source` to `target`.
///
/// `moved` takes the last slot in `target`'s layout, so it lands in the
/// next free position and no window already on `target` changes column.
/// A no-op for either workspace that has no effective columns. An error
/// at the source leaves the target as it is.
pub fn reapply_columns_after_move(
    source: &mut Workspace,
    target: &mut Workspace,
    moved: ContainerId,
    source_default: &MonitorDefault,
    target_default: &MonitorDefault,
) -> (result: Result<AfterMove, ColumnsError>)
    ensures
        *final(source) == reapply_after(*old(source), None, *source_default),
        match result {
            Ok(after) => {
                &&& reapply_outcome(*old(source), None, *source_default) == Ok::<
                    Option<Layout>,
                    ColumnsFault,
                >(shown(after.source))
                &&& outcome(after.target) == reapply_outcome(
                    *old(target),
                    Some(moved),
                    *target_default,
                )
                &&& *final(target) == reapply_after(*old(target), Some(moved), *target_default)
            },
            Err(error) => {
                &&& reapply_outcome(*old(source), None, *source_default) == Err::<
                    Option<Layout>,
                    ColumnsFault,
                >(error@)
                &&& *final(target) == *old(target)
            },
        },
{
    match reapply_assigned_columns(source, source_default) {
        Ok(left) => {
            let target = reapply_columns_for_new_window(target, moved, target_default);
            Ok(AfterMove { source: left, target })
        },
        Err(error) => Err(error),
    }
}

/// Reverses a comma-separated column spec so the center column moves to
/// the opposite side (e.g. `C,*` becomes `*,C`, `*,C,*` stays symmetric).
pub fn reverse_spec(spec: &str) -> (reversed: String)
    ensures
        reversed@ == reversed_spec(spec@),
{
    let parts: Vec<&str> = split(spec, ',');
    let ghost views = parts@.map_values(|part: &str| part@);
    let ghost back = views.reverse();
    let mut reversed: String = String::new();
    let mut i: usize = parts.len();
    assert(back.take(0) =~= Seq::<Seq<char>>::empty());
    while i > 0
        invariant
            i <= parts.len(),
            views == parts@.map_values(|part: &str| part@),
            back == views.reverse(),
            reversed@ == joined(back.take(parts.len() - i), ','),
        decreases i,
    {
        let ghost done = parts.len() - i;
        let ghost head = back.take(done);
        let ghost longer = back.take(done + 1);
        proof {
            reveal_strlit(",");
            assert(longer.drop_last() =~= head);
            assert(longer.last() == parts@[i - 1]@);
        }
        if i < parts.len() {
            reversed.append(",");
        }
        reversed.append(parts[i - 1]);
        assert(reversed@ =~= joined(longer, ','));
        i -= 1;
    }
    assert(back.take(parts.len() - i) =~= back);
    reversed
}

/// Toggles the workspace's column layout mode through the cycle
/// `MasterStackLeft`, `Grid`, `MasterStackRight` and back, or to the
/// `forced` mode, then reapplies. Grid mode falls back to master-stack-left
/// with fewer than four windows.
pub fn toggle_columns_mode(
    workspace: &mut Workspace,
    forced: Option<ColumnsMode>,
    default: &MonitorDefault,
) -> (result: Result<Option<Arrangement>, ColumnsError>)
    ensures
        ({
            let mode = match forced {
                Some(mode) => mode,
                None => next_mode(old(workspace).columns_mode),
            };
            let toggled = old(workspace).with_mode(mode);
            &&& outcome(result) == reapply_outcome(toggled, None, *default)
            &&& *final(workspace) == reapply_after(toggled, None, *default)
        }),
{
    let new_mode: ColumnsMode = match forced {
        Some(mode) => mode,
        None => match workspace.columns_mode {
            ColumnsMode::MasterStackLeft => ColumnsMode::Grid,
            ColumnsMode::Grid => ColumnsMode::MasterStackRight,
            ColumnsMode::MasterStackRight => ColumnsMode::MasterStackLeft,
        },
    };
    workspace.columns_mode = new_mode;
    reapply_assigned_columns(workspace, default)
}

/// Records the workspace's current center-column width into its assigned
/// columns, so a manual resize of the center becomes the template width
/// used by later reapplies.
///
/// A no-op when the workspace has no assigned columns or no laid-out
/// center column (fewer than two tiling windows).
pub fn store_center_width(workspace: &mut Workspace)
    ensures
        *final(workspace) == match old(workspace).columns {
            Some(columns) => match center_width(*old(workspace)) {
                Some(width) => measured(*old(workspace)).with_columns(
                    Some(ColumnLayout { spec: columns.spec, center: width }),
                ),
                None => measured(*old(workspace)),
            },
            None => *old(workspace),
        },
{
    if workspace.columns.is_none() {
        return;
    }
    let width: Fraction = match workspace_center_width(workspace) {
        Some(width) => width,
        None => return,
    };
    if let Some(columns) = &mut workspace.columns {
        columns.center = width;
    }
}

} // verus!
