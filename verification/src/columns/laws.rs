//! What holds of the commands together.
//!
//! A workspace is said to show a layout when its grid holds the layout's
//! columns, without the empty ones.

use crate::columns::{
    effective, grid_applies, mode_spec, next_mode, others, reapply_after, reapply_outcome,
    spec_after, spec_outcome, ColumnsFault, MonitorDefault,
};
use crate::columns::deal::{
    capacity, deal, deal_drops_nothing, deal_is_prefix_stable, deal_reads_back, distributed,
    grid_is_prefix_stable, grid_reads_back, has_star, last_side, lemma_last_side, readable,
};
use crate::columns::grid::{lemma_located, lemma_reading_len, total, ColumnWidth, Layout};
use crate::columns::master::{center_col, center_of, master_of, ordered};
use crate::columns::places::{
    lemma_same_windows, lemma_visible_filled, lemma_visible_widths, showing_keeps_the_reading_order,
    visible,
};
use crate::columns::reading::{
    depth, lemma_depth, lemma_depth_bound, lemma_reading_contains, lemma_rows_below, other_than,
    pooled, reading_keeps_every_window, reading_order, row_upto, rows_upto,
};
use crate::columns::spec::{center_count, parsed_spec, ColumnKind};
use crate::state::{
    first_index, is_id, lemma_first_index, lemma_first_index_is, ColumnsMode, ContainerId, Fraction,
    Workspace,
};
use vstd::prelude::*;

verus! {

/// Whether a workspace shows a layout: it has the layout's columns, without
/// the empty ones, and a width for each.
pub open spec fn shows(workspace: Workspace, layout: Layout) -> bool {
    &&& workspace.grid@.columns == layout.shown().columns
    &&& workspace.grid@.widths.len() == layout.shown().widths.len()
}

/// Whether two workspaces are in the same mode with the same assigned
/// columns.
pub open spec fn same_settings(a: Workspace, b: Workspace) -> bool {
    a.columns == b.columns && a.columns_mode == b.columns_mode
}

/// The columns by which a workspace is laid out, unless it is a grid.
pub open spec fn effective_kinds(workspace: Workspace, default: MonitorDefault) -> Option<
    Seq<ColumnKind>,
> {
    match effective(workspace, default) {
        Ok(Some(columns)) => match parsed_spec(mode_spec(workspace.columns_mode, columns.spec@)) {
            Ok(kinds) => Some(kinds),
            Err(_) => None,
        },
        _ => None,
    }
}

/// The ordered windows are those of the grid.
pub proof fn lemma_ordered(columns: Seq<Seq<ContainerId>>, last: Option<ContainerId>)
    ensures
        ordered(columns, last).to_multiset() == pooled(columns),
        ordered(columns, last).len() == total(columns),
        reading_order(columns).no_duplicates() ==> ordered(columns, last).no_duplicates(),
{
    broadcast use vstd::seq_lib::group_to_multiset_ensures;

    let windows = reading_order(columns);
    let all = ordered(columns, last);
    reading_keeps_every_window(columns);
    lemma_reading_len(columns);
    if let Some(last) = last {
        lemma_first_index(windows, is_id(last));
        if let Some(index) = first_index(windows, is_id(last)) {
            assert(windows[index] == last);
            assert(windows.to_multiset().contains(last));
            assert(all.to_multiset() =~= windows.to_multiset());
        }
    }
    if windows.no_duplicates() {
        windows.lemma_multiset_has_no_duplicates();
        all.lemma_multiset_has_no_duplicates_conv();
    }
}

/// The other windows and the master are all the windows.
pub proof fn lemma_others(windows: Seq<ContainerId>, master: ContainerId)
    requires
        windows.no_duplicates(),
    ensures
        windows.contains(master) ==> others(windows, master).to_multiset().insert(master)
            == windows.to_multiset(),
        windows.contains(master) ==> others(windows, master).len() == windows.len() - 1,
        !windows.contains(master) ==> others(windows, master) == windows,
        !others(windows, master).contains(master),
    decreases windows.len(),
{
    broadcast use vstd::seq_lib::group_to_multiset_ensures;

    reveal(Seq::filter);
    let left = others(windows, master);
    assert forall|i: int| 0 <= i < left.len() implies left[i] != master by {
        windows.lemma_filter_pred(other_than(master), i);
    }
    if windows.len() > 0 {
        let head = windows.drop_last();
        let last = windows.last();
        lemma_others(head, master);
        assert(head.push(last) =~= windows);
        if last == master {
            assert forall|i: int| 0 <= i < head.len() implies head[i] != master by {
                assert(windows[i] != windows[windows.len() - 1]);
            }
            assert(windows[windows.len() - 1] == master);
        } else {
            if windows.contains(master) {
                let i = choose|i: int| 0 <= i < windows.len() && windows[i] == master;
                assert(head[i] == master);
                assert(left == others(head, master).push(last));
                assert(left.to_multiset().insert(master) =~= windows.to_multiset());
            } else {
                assert forall|i: int| 0 <= i < head.len() implies head[i] != master by {
                    assert(windows[i] != master);
                }
                assert(left =~= windows);
            }
        }
    }
}

/// The master is one of the windows.
pub proof fn lemma_master_of(designated: Option<ContainerId>, windows: Seq<ContainerId>)
    ensures
        match master_of(designated, windows) {
            Some(master) => windows.contains(master),
            None => windows.len() == 0,
        },
{
    if windows.len() > 0 {
        assert(windows.contains(windows[0]));
    }
}

/// The column of the center holds the master alone.
proof fn lemma_center_of_distribution(
    kinds: Seq<ColumnKind>,
    master: ContainerId,
    rest: Seq<ContainerId>,
) -> (col: int)
    requires
        center_count(kinds) == 1,
    ensures
        0 <= col < kinds.len(),
        kinds[col] is Center,
        distributed(kinds, master, rest)[col] == seq![master],
{
    lemma_some_center(kinds)
}

/// Where there is a center, it is one of the columns.
pub proof fn lemma_some_center(kinds: Seq<ColumnKind>) -> (col: int)
    requires
        center_count(kinds) > 0,
    ensures
        0 <= col < kinds.len(),
        kinds[col] is Center,
    decreases kinds.len(),
{
    if kinds.last() is Center {
        kinds.len() - 1
    } else {
        let col = lemma_some_center(kinds.drop_last());
        assert(kinds.drop_last()[col] == kinds[col]);
        col
    }
}

/// The windows that a layout of `kinds` was read back as are those that it
/// was made of.
proof fn lemma_spec_layout_reads_back(
    kinds: Seq<ColumnKind>,
    master: ContainerId,
    rest: Seq<ContainerId>,
)
    requires
        center_count(kinds) == 1,
        readable(kinds, rest.len()),
        !rest.contains(master),
        rest.len() > 0,
    ensures
        ({
            let read = reading_order(visible(distributed(kinds, master, rest)));
            &&& read.contains(master)
            &&& others(read, master) == rest
            &&& read.len() == rest.len() + 1
        }),
{
    broadcast use vstd::seq_lib::group_to_multiset_ensures;

    let columns = distributed(kinds, master, rest);
    showing_keeps_the_reading_order(columns);
    deal_reads_back(kinds, master, rest);
    let col = lemma_center_of_distribution(kinds, master, rest);
    assert(columns[col][0] == master);
    assert(columns[col].contains(master));
    lemma_reading_contains(columns, master);
    lemma_some_side(kinds, rest.len());
    deal_drops_nothing(kinds, master, rest);
    reading_keeps_every_window(columns);
    assert(reading_order(columns).to_multiset().len() == rest.to_multiset().len() + 1);
}

/// Windows can be read back only from a spec with a column beside the
/// center.
proof fn lemma_some_side(kinds: Seq<ColumnKind>, count: nat)
    requires
        readable(kinds, count),
        count > 0,
    ensures
        last_side(kinds) >= 0,
{
    if last_side(kinds) < 0 {
        lemma_only_center_has_no_room(kinds);
    }
}

/// A spec of the center alone has no room beside it.
proof fn lemma_only_center_has_no_room(kinds: Seq<ColumnKind>)
    requires
        last_side(kinds) < 0,
    ensures
        capacity(kinds) == 0,
        !has_star(kinds),
    decreases kinds.len(),
{
    if kinds.len() > 0 {
        let head = kinds.drop_last();
        lemma_only_center_has_no_room(head);
        assert forall|col: int| 0 <= col < kinds.len() implies !(#[trigger] kinds[col] is Star) by {
            if col < head.len() {
                assert(head[col] == kinds[col]);
            }
        }
    }
}

/// Applying a spec to what it already shows changes nothing: the same
/// layout comes out, and the same window is designated. The columns are
/// read back as they were dealt where that can be done at all.
pub proof fn applying_is_idempotent(
    before: Workspace,
    spec: Seq<char>,
    center: Fraction,
    last: Option<ContainerId>,
    layout: Layout,
    after: Workspace,
)
    requires
        before.grid@.well_formed(),
        parsed_spec(spec) matches Ok(kinds) ==> readable(
            kinds,
            (total(before.grid@.columns) - 1) as nat,
        ),
        spec_outcome(before, spec, center, last) == Ok::<Option<Layout>, ColumnsFault>(
            Some(layout),
        ),
        shows(after, layout),
        after.master_window == spec_after(before, spec, last).master_window,
    ensures
        spec_outcome(after, spec, center, None) == Ok::<Option<Layout>, ColumnsFault>(
            Some(layout),
        ),
        spec_after(after, spec, None) == after,
        total(after.grid@.columns) == total(before.grid@.columns),
{
    let windows = ordered(before.grid@.columns, last);
    lemma_ordered(before.grid@.columns, last);
    lemma_reading_len(after.grid@.columns);
    let kinds = parsed_spec(spec)->Ok_0;
    let master = master_of(before.master_window, windows)->0;
    let rest = others(windows, master);
    lemma_master_of(before.master_window, windows);
    lemma_others(windows, master);
    lemma_spec_layout_reads_back(kinds, master, rest);
    let read = ordered(after.grid@.columns, None);
    assert(read == reading_order(visible(layout.columns)));
    assert(master_of(after.master_window, read) == Some(master));
    assert(after.with_master(Some(master)) == after);
}

/// Reapplying a workspace's columns to what they already show changes
/// nothing: the same layout comes out, and the same window is designated.
/// Spec columns are read back as they were dealt where that can be done at
/// all.
pub proof fn reapplying_is_idempotent(
    before: Workspace,
    last: Option<ContainerId>,
    default: MonitorDefault,
    layout: Layout,
    after: Workspace,
)
    requires
        before.grid@.well_formed(),
        !grid_applies(before) ==> (effective_kinds(before, default) matches Some(kinds)
            ==> readable(kinds, (total(before.grid@.columns) - 1) as nat)),
        reapply_outcome(before, last, default) == Ok::<Option<Layout>, ColumnsFault>(Some(layout)),
        shows(after, layout),
        same_settings(before, after),
        after.master_window == reapply_after(before, last, default).master_window,
    ensures
        reapply_outcome(after, None, default) == Ok::<Option<Layout>, ColumnsFault>(Some(layout)),
        reapply_after(after, None, default) == after,
{
    if grid_applies(before) {
        let windows = ordered(before.grid@.columns, last);
        lemma_ordered(before.grid@.columns, last);
        lemma_reading_len(after.grid@.columns);
        showing_keeps_the_reading_order(layout.columns);
        grid_reads_back(2, windows);
        assert(ordered(after.grid@.columns, None) == windows);
    } else {
        let columns = effective(before, default)->Ok_0->0;
        applying_is_idempotent(
            before,
            mode_spec(before.columns_mode, columns.spec@),
            columns.center,
            last,
            layout,
            after,
        );
    }
}

/// Reapplying a workspace's columns for a window that came last puts it at
/// the bottom of one column. Every window already there keeps its column
/// and its row, the widths stay, and so does the master.
///
/// In grid mode the fourth window is left out: with it the layout changes
/// from the spec's columns to the grid's.
pub proof fn a_new_window_moves_no_other(
    before: Workspace,
    default: MonitorDefault,
    layout: Layout,
    grown: Workspace,
    added: ContainerId,
) -> (col: int)
    requires
        reapply_outcome(before, None, default) == Ok::<Option<Layout>, ColumnsFault>(Some(layout)),
        !grid_applies(before) ==> (effective_kinds(before, default) matches Some(kinds)
            ==> last_side(kinds) >= 0),
        same_settings(before, grown),
        grown.master_window == reapply_after(before, None, default).master_window,
        !reading_order(before.grid@.columns).contains(added),
        ordered(grown.grid@.columns, Some(added)) == reading_order(before.grid@.columns).push(added),
        grid_applies(grown) == grid_applies(before),
    ensures
        0 <= col < layout.columns.len(),
        reapply_outcome(grown, Some(added), default) == Ok::<Option<Layout>, ColumnsFault>(
            Some(
                Layout {
                    columns: layout.columns.update(col, layout.columns[col].push(added)),
                    ..layout
                },
            ),
        ),
        reapply_after(grown, Some(added), default) == grown,
{
    let windows = reading_order(before.grid@.columns);
    let all = windows.push(added);
    if grid_applies(before) {
        grid_is_prefix_stable(2, windows, added);
        (windows.len() % 2) as int
    } else {
        let kinds = effective_kinds(before, default)->0;
        let master = master_of(before.master_window, windows)->0;
        lemma_master_of(before.master_window, windows);
        let at = choose|i: int| 0 <= i < windows.len() && windows[i] == master;
        assert(all[at] == master);
        windows.lemma_filter_push(added, other_than(master));
        deal_is_prefix_stable(kinds, master, others(windows, master), added);
        assert(grown.with_master(Some(master)) == grown);
        deal(kinds, others(windows, master).len())
    }
}

/// The part of a row without the window of an inserted column.
proof fn lemma_row_of_inserted(
    columns: Seq<Seq<ContainerId>>,
    at: int,
    added: ContainerId,
    row: int,
    col: int,
)
    requires
        0 <= at <= columns.len(),
        0 <= row,
        0 <= col <= columns.len() + 1,
        forall|c: int| 0 <= c < columns.len() ==> !(#[trigger] columns[c]).contains(added),
    ensures
        row_upto(columns.insert(at, seq![added]), row, col).filter(other_than(added)) == row_upto(
            columns,
            row,
            if col <= at {
                col
            } else {
                col - 1
            },
        ),
    decreases col,
{
    reveal(Seq::filter);
    let wider = columns.insert(at, seq![added]);
    if col > 0 {
        lemma_row_of_inserted(columns, at, added, row, col - 1);
        let before = row_upto(wider, row, col - 1);
        if row < wider[col - 1].len() {
            before.lemma_filter_push(wider[col - 1][row], other_than(added));
            if col - 1 != at {
                let from = if col - 1 < at {
                    col - 1
                } else {
                    col - 2
                };
                assert(wider[col - 1] == columns[from]);
                assert(columns[from].contains(columns[from][row]));
            }
        }
    }
}

/// The first rows without the window of an inserted column.
proof fn lemma_rows_of_inserted(
    columns: Seq<Seq<ContainerId>>,
    at: int,
    added: ContainerId,
    row: int,
)
    requires
        0 <= at <= columns.len(),
        forall|c: int| 0 <= c < columns.len() ==> !(#[trigger] columns[c]).contains(added),
    ensures
        rows_upto(columns.insert(at, seq![added]), row).filter(other_than(added)) == rows_upto(
            columns,
            row,
        ),
    decreases row,
{
    reveal(Seq::filter);
    let wider = columns.insert(at, seq![added]);
    if row > 0 {
        lemma_rows_of_inserted(columns, at, added, row - 1);
        lemma_row_of_inserted(columns, at, added, row - 1, wider.len() as int);
        Seq::filter_distributes_over_add(
            rows_upto(wider, row - 1),
            row_upto(wider, row - 1, wider.len() as int),
            other_than(added),
        );
    }
}

/// Filtering that drops nothing keeps everything.
pub proof fn lemma_filter_keeps_all(items: Seq<ContainerId>, keep: spec_fn(ContainerId) -> bool)
    requires
        items.filter(keep).len() == items.len(),
    ensures
        items.filter(keep) == items,
        forall|i: int| 0 <= i < items.len() ==> keep(#[trigger] items[i]),
    decreases items.len(),
{
    reveal(Seq::filter);
    if items.len() > 0 {
        let head = items.drop_last();
        head.lemma_filter_len(keep);
        lemma_filter_keeps_all(head, keep);
        assert(items.filter(keep) =~= items);
        assert forall|i: int| 0 <= i < items.len() implies keep(#[trigger] items[i]) by {
            if i < head.len() {
                assert(head[i] == items[i]);
            }
        }
    }
}

/// Removing a window that occurs once is filtering it out.
pub proof fn lemma_remove_is_filter(items: Seq<ContainerId>, id: ContainerId, index: int)
    requires
        0 <= index < items.len(),
        items[index] == id,
        items.filter(other_than(id)).len() == items.len() - 1,
    ensures
        items.remove(index) == items.filter(other_than(id)),
        first_index(items, is_id(id)) == Some(index),
    decreases items.len(),
{
    reveal(Seq::filter);
    let head = items.drop_last();
    head.lemma_filter_len(other_than(id));
    if index == items.len() - 1 {
        lemma_filter_keeps_all(head, other_than(id));
        assert(items.remove(index) =~= head);
        assert forall|i: int| 0 <= i < index implies !is_id(id)(#[trigger] items[i]) by {
            assert(other_than(id)(head[i]));
        }
        lemma_first_index_is(items, is_id(id), index);
    } else {
        if items.last() == id {
            lemma_filter_keeps_all(head, other_than(id));
            assert(other_than(id)(head[index]));
        }
        lemma_remove_is_filter(head, id, index);
        assert(items.remove(index) =~= head.remove(index).push(items.last()));
    }
}

/// A window that joins a workspace in a column of its own, wherever that
/// is, and is forced to the end of the order stands behind the windows
/// that were there, which keep their order.
pub proof fn a_window_forced_last_follows_the_others(
    columns: Seq<Seq<ContainerId>>,
    at: int,
    added: ContainerId,
)
    requires
        0 <= at <= columns.len(),
        !reading_order(columns).contains(added),
    ensures
        ordered(columns.insert(at, seq![added]), Some(added)) == reading_order(columns).push(added),
{
    let wider = columns.insert(at, seq![added]);
    let deep = depth(wider) as int;
    lemma_reading_contains(columns, added);
    lemma_rows_of_inserted(columns, at, added, deep);
    assert forall|c: int| 0 <= c < columns.len() implies (#[trigger] columns[c]).len()
        <= depth(wider) by {
        let to = if c < at {
            c
        } else {
            c + 1
        };
        lemma_depth(wider, to);
        assert(wider[to] == columns[c]);
    }
    lemma_depth_bound(columns, depth(wider));
    lemma_rows_below(columns, deep);
    let read = reading_order(wider);
    assert(read.filter(other_than(added)) == reading_order(columns));
    lemma_reading_len(columns);
    lemma_reading_len(wider);
    lemma_total_of_inserted(columns, at, seq![added]);
    assert(wider[at].contains(added)) by {
        assert(wider[at][0] == added);
    }
    lemma_reading_contains(wider, added);
    let index = choose|i: int| 0 <= i < read.len() && read[i] == added;
    lemma_remove_is_filter(read, added, index);
}

/// An inserted column adds its windows.
proof fn lemma_total_of_inserted(
    columns: Seq<Seq<ContainerId>>,
    at: int,
    column: Seq<ContainerId>,
)
    requires
        0 <= at <= columns.len(),
    ensures
        total(columns.insert(at, column)) == total(columns) + column.len(),
    decreases columns.len(),
{
    let wider = columns.insert(at, column);
    if at == columns.len() {
        assert(wider.drop_last() =~= columns);
    } else {
        lemma_total_of_inserted(columns.drop_last(), at, column);
        assert(wider.drop_last() =~= columns.drop_last().insert(at, column));
    }
}

/// The center column of a layout holds the master and no other window, at
/// the assigned width within its limits; and the master is designated.
pub proof fn the_center_holds_the_master_alone(
    workspace: Workspace,
    last: Option<ContainerId>,
    default: MonitorDefault,
    layout: Layout,
    col: int,
)
    requires
        reapply_outcome(workspace, last, default) == Ok::<Option<Layout>, ColumnsFault>(
            Some(layout),
        ),
        !grid_applies(workspace),
        effective_kinds(workspace, default) matches Some(kinds) && 0 <= col < kinds.len()
            && kinds[col] is Center,
    ensures
        reapply_after(workspace, last, default).master_window matches Some(master)
            && layout.columns[col] == seq![master],
        effective(workspace, default) matches Ok(Some(columns)) && layout.widths[col]
            == ColumnWidth::Center(columns.center.within_limits()),
{
}

/// Where the designated master has left the workspace, or there is none,
/// the first window in canonical order becomes the master, and the others
/// keep their order. A spec that is reapplied to it designates that window.
pub proof fn a_missing_master_promotes_the_first_window(
    workspace: Workspace,
    default: MonitorDefault,
)
    requires
        workspace.grid@.well_formed(),
        total(workspace.grid@.columns) > 0,
        workspace.master_window matches Some(master) ==> !reading_order(workspace.grid@.columns).contains(
            master,
        ),
    ensures
        center_of(workspace) == Some(reading_order(workspace.grid@.columns)[0]),
        others(reading_order(workspace.grid@.columns), reading_order(workspace.grid@.columns)[0])
            == reading_order(workspace.grid@.columns).skip(1),
        total(workspace.grid@.columns) >= 2 && !grid_applies(workspace) && effective_kinds(
            workspace,
            default,
        ) is Some ==> reapply_after(workspace, None, default).master_window == Some(
            reading_order(workspace.grid@.columns)[0],
        ),
{
    let windows = reading_order(workspace.grid@.columns);
    lemma_reading_len(workspace.grid@.columns);
    lemma_others(windows, windows[0]);
    assert(windows.contains(windows[0]));
    lemma_remove_is_filter(windows, windows[0], 0);
    assert(windows.remove(0) =~= windows.skip(1));
}

/// A designated master that is still on the workspace stays the master,
/// whatever else is there.
pub proof fn a_present_master_stays(
    workspace: Workspace,
    last: Option<ContainerId>,
    default: MonitorDefault,
    master: ContainerId,
)
    requires
        workspace.master_window == Some(master),
        reading_order(workspace.grid@.columns).contains(master),
    ensures
        center_of(workspace) == Some(master),
        reapply_after(workspace, last, default) == workspace,
{
    broadcast use vstd::seq_lib::group_to_multiset_ensures;

    lemma_ordered(workspace.grid@.columns, last);
    reading_keeps_every_window(workspace.grid@.columns);
    assert(reading_order(workspace.grid@.columns).to_multiset().count(master) > 0);
    assert(ordered(workspace.grid@.columns, last).to_multiset().count(master) > 0);
    assert(ordered(workspace.grid@.columns, last).contains(master));
    assert(workspace.with_master(Some(master)) == workspace);
}

/// A workspace with a window has a center window, which is one of its
/// windows, and a center column, which holds it.
pub proof fn the_center_window_is_live(workspace: Workspace)
    ensures
        center_of(workspace) is Some <==> total(workspace.grid@.columns) > 0,
        center_of(workspace) matches Some(master) ==> {
            &&& reading_order(workspace.grid@.columns).contains(master)
            &&& center_col(workspace) matches Some(col) && 0 <= col < workspace.grid@.columns.len()
                && workspace.grid@.columns[col].contains(master)
        },
{
    let windows = reading_order(workspace.grid@.columns);
    lemma_reading_len(workspace.grid@.columns);
    lemma_master_of(workspace.master_window, windows);
    if let Some(master) = center_of(workspace) {
        lemma_reading_contains(workspace.grid@.columns, master);
        lemma_located(workspace.grid@.columns, master);
    }
}

/// A layout holds each of the workspace's windows as often as the
/// workspace does: nothing is dropped.
pub proof fn a_layout_drops_no_window(
    workspace: Workspace,
    last: Option<ContainerId>,
    default: MonitorDefault,
    layout: Layout,
)
    requires
        workspace.grid@.well_formed(),
        reapply_outcome(workspace, last, default) == Ok::<Option<Layout>, ColumnsFault>(
            Some(layout),
        ),
        !grid_applies(workspace) ==> (effective_kinds(workspace, default) matches Some(kinds)
            ==> last_side(kinds) >= 0),
    ensures
        pooled(layout.columns) == pooled(workspace.grid@.columns),
{
    let windows = ordered(workspace.grid@.columns, last);
    lemma_ordered(workspace.grid@.columns, last);
    if grid_applies(workspace) {
        grid_reads_back(2, windows);
        reading_keeps_every_window(layout.columns);
    } else {
        let kinds = effective_kinds(workspace, default)->0;
        let master = master_of(workspace.master_window, windows)->0;
        lemma_master_of(workspace.master_window, windows);
        lemma_others(windows, master);
        deal_drops_nothing(kinds, master, others(windows, master));
    }
}

/// A layout has a width for each column, and what shows it is well-formed:
/// each column has a width and holds a window, and no window is in two
/// places.
pub proof fn what_a_layout_shows_is_well_formed(
    workspace: Workspace,
    last: Option<ContainerId>,
    default: MonitorDefault,
    layout: Layout,
    after: Workspace,
)
    requires
        workspace.grid@.well_formed(),
        reapply_outcome(workspace, last, default) == Ok::<Option<Layout>, ColumnsFault>(
            Some(layout),
        ),
        shows(after, layout),
    ensures
        layout.columns.len() == layout.widths.len(),
        after.grid@.well_formed(),
{
    lemma_visible_widths(layout.columns, layout.widths);
    lemma_visible_filled(layout.columns);
    showing_keeps_the_reading_order(layout.columns);
    let kinds = effective_kinds(workspace, default)->0;
    if grid_applies(workspace) || last_side(kinds) >= 0 {
        a_layout_drops_no_window(workspace, last, default, layout);
        lemma_same_windows(workspace.grid@.columns, layout.columns);
    } else {
        let windows = ordered(workspace.grid@.columns, last);
        let master = master_of(workspace.master_window, windows)->0;
        let rest = others(windows, master);
        lemma_last_side(kinds);
        deal_drops_nothing(kinds, master, Seq::empty());
        assert(layout.columns =~= distributed(kinds, master, Seq::empty()));
        lemma_alone(layout.columns, master);
    }
}

/// Columns that hold a single window hold none twice.
proof fn lemma_alone(columns: Seq<Seq<ContainerId>>, master: ContainerId)
    requires
        pooled(columns) == Seq::<ContainerId>::empty().to_multiset().insert(master),
    ensures
        reading_order(columns).no_duplicates(),
{
    broadcast use vstd::seq_lib::group_to_multiset_ensures;

    reading_keeps_every_window(columns);
    let read = reading_order(columns);
    assert(read.to_multiset().len() == 1);
    assert(read.len() == 1);
}

/// Toggling the mode three times comes back to it.
pub proof fn three_toggles_return(mode: ColumnsMode)
    ensures
        next_mode(next_mode(next_mode(mode))) == mode,
{
}

} // verus!
