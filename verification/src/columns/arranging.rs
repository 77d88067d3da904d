//! What laying a workspace out does.

use crate::columns::{
    grid_layout, next_mode, others, reapply_after, reapply_outcome, reversed_spec, spec_after,
    spec_outcome, ColumnsFault, MonitorDefault,
};
use crate::columns::behaviour::{lemma_stands, stands};
use crate::columns::deal::{
    a_grid_is_even, at_most, capacity, deal_reads_back, dealer, grid_reads_back, has_star,
    last_side, readable, stacked, the_deal_is_even, the_surplus_goes_to_the_last_side_column,
};
use crate::columns::grid::{lemma_reading_len, total, ColumnWidth, Layout};
use crate::columns::laws::{lemma_ordered, lemma_others, lemma_remove_is_filter};
use crate::columns::master::{master_of, ordered};
use crate::columns::places::{visible, visible_widths};
use crate::columns::reading::{other_than, reading_order};
use crate::columns::spec::{center_count, parsed_spec, template_widths, ColumnKind, SpecFault};
use crate::state::{
    first_index, is_id, lemma_first_index, ColumnLayout, ColumnsMode, ContainerId, Fraction,
    Workspace,
};
use vstd::prelude::*;

verus! {

/// The windows in reading order, with `last` behind the others if it is one
/// of them.
pub open spec fn with_last(
    columns: Seq<Seq<ContainerId>>,
    last: Option<ContainerId>,
) -> Seq<ContainerId> {
    match last {
        Some(window) => if stands(columns, window) {
            reading_order(columns).filter(other_than(window)).push(window)
        } else {
            reading_order(columns)
        },
        None => reading_order(columns),
    }
}

/// The canonical order is the reading order. A window that is forced last
/// stands behind the others, which keep their order; one that is not there
/// changes nothing.
pub proof fn the_order_is_the_reading_order(
    columns: Seq<Seq<ContainerId>>,
    last: Option<ContainerId>,
)
    requires
        reading_order(columns).no_duplicates(),
    ensures
        ordered(columns, last) == with_last(columns, last),
{
    let windows = reading_order(columns);
    if let Some(window) = last {
        lemma_stands(columns, window);
        lemma_first_index(windows, is_id(window));
        if stands(columns, window) {
            let at = choose|at: int| 0 <= at < windows.len() && windows[at] == window;
            lemma_others(windows, window);
            lemma_remove_is_filter(windows, window, at);
        } else {
            if let Some(at) = first_index(windows, is_id(window)) {
                assert(is_id(window)(windows[at]));
                assert(windows.contains(windows[at]));
            }
        }
    }
}

/// Whether `id` leads a layout: it is the designated window if that is in
/// the columns, otherwise the first in the order.
pub open spec fn leads(workspace: Workspace, last: Option<ContainerId>, id: ContainerId) -> bool {
    if workspace.master_window matches Some(designated) && stands(
        workspace.grid@.columns,
        designated,
    ) {
        workspace.master_window == Some(id)
    } else {
        let order = with_last(workspace.grid@.columns, last);
        order.len() > 0 && order[0] == id
    }
}

/// The leader of a layout is its master.
proof fn lemma_leads(workspace: Workspace, last: Option<ContainerId>, id: ContainerId)
    requires
        workspace.grid@.well_formed(),
        leads(workspace, last, id),
    ensures
        master_of(workspace.master_window, ordered(workspace.grid@.columns, last)) == Some(id),
        ordered(workspace.grid@.columns, last) == with_last(workspace.grid@.columns, last),
        ordered(workspace.grid@.columns, last).no_duplicates(),
        ordered(workspace.grid@.columns, last).contains(id),
        ordered(workspace.grid@.columns, last).len() == total(workspace.grid@.columns),
        reading_order(workspace.grid@.columns).len() == total(workspace.grid@.columns),
{
    broadcast use vstd::seq_lib::group_to_multiset_ensures;

    let columns = workspace.grid@.columns;
    let order = ordered(columns, last);
    the_order_is_the_reading_order(columns, last);
    lemma_ordered(columns, last);
    lemma_ordered(columns, None);
    lemma_reading_len(columns);
    if let Some(designated) = workspace.master_window {
        lemma_stands(columns, designated);
        assert(order.contains(designated) <==> order.to_multiset().count(designated) > 0);
        assert(reading_order(columns).contains(designated) <==> reading_order(
            columns,
        ).to_multiset().count(designated) > 0);
    }
    if order.len() > 0 {
        assert(order.contains(order[0]));
    }
}

/// Applying a spec gives a column for each token. The center holds the
/// leading window alone, at the assigned width within its limits. All the
/// other columns, fixed or not, share what that leaves evenly, among as many
/// as there are besides the center. The leading window is designated, and
/// nothing else of the workspace changes.
pub proof fn an_applied_spec_centers_the_leading_window(
    workspace: Workspace,
    spec: Seq<char>,
    kinds: Seq<ColumnKind>,
    center: Fraction,
    last: Option<ContainerId>,
    id: ContainerId,
    col: int,
)
    requires
        workspace.grid@.well_formed(),
        parsed_spec(spec) == Ok::<Seq<ColumnKind>, SpecFault>(kinds),
        reading_order(workspace.grid@.columns).len() >= 2,
        leads(workspace, last, id),
        0 <= col < kinds.len(),
    ensures
        spec_outcome(workspace, spec, center, last) matches Ok(Some(layout)) && {
            &&& layout.columns.len() == kinds.len()
            &&& layout.widths.len() == kinds.len()
            &&& kinds[col] is Center ==> layout.columns[col] == seq![id] && layout.widths[col]
                == ColumnWidth::Center(center.within_limits())
            &&& !(kinds[col] is Center) ==> !layout.columns[col].contains(id)
                && layout.widths[col] == (ColumnWidth::Side {
                center: center.within_limits(),
                sharing: (kinds.len() - 1) as usize,
            })
        },
        spec_after(workspace, spec, last) == (Workspace { master_window: Some(id), ..workspace }),
{
    lemma_leads(workspace, last, id);
    let windows = ordered(workspace.grid@.columns, last);
    lemma_others(windows, id);
    lemma_stacked_among(
        dealer(kinds),
        others(windows, id),
        col,
        id,
    );
}

/// What is stacked in a column is among the windows.
proof fn lemma_stacked_among(
    place: spec_fn(nat) -> int,
    windows: Seq<ContainerId>,
    col: int,
    id: ContainerId,
)
    requires
        !windows.contains(id),
    ensures
        !stacked(place, windows, col).contains(id),
    decreases windows.len(),
{
    if windows.len() > 0 {
        let head = windows.drop_last();
        assert forall|i: int| 0 <= i < head.len() implies head[i] != id by {
            assert(windows[i] != id);
        }
        lemma_stacked_among(place, head, col, id);
        assert(windows[windows.len() - 1] != id);
        let before = stacked(place, head, col);
        let all = stacked(place, windows, col);
        assert forall|i: int| 0 <= i < all.len() implies all[i] != id by {
            if i < before.len() {
                assert(all[i] == before[i]);
            }
        }
    }
}

/// The windows beside the leading one are dealt in their order: row by row,
/// left to right, they read as they did before. And they are shared evenly.
/// Where fixed columns are overfull, each holds its count and the last one
/// the surplus.
pub proof fn an_applied_spec_deals_the_others_in_order(
    workspace: Workspace,
    spec: Seq<char>,
    kinds: Seq<ColumnKind>,
    center: Fraction,
    last: Option<ContainerId>,
    id: ContainerId,
    i: int,
    j: int,
)
    requires
        workspace.grid@.well_formed(),
        parsed_spec(spec) == Ok::<Seq<ColumnKind>, SpecFault>(kinds),
        reading_order(workspace.grid@.columns).len() >= 2,
        leads(workspace, last, id),
        0 <= i < kinds.len(),
        0 <= j < kinds.len(),
        !(kinds[i] is Center),
        !(kinds[j] is Center),
    ensures
        spec_outcome(workspace, spec, center, last) matches Ok(Some(layout)) && {
            let count = reading_order(workspace.grid@.columns).len() - 1;
            let mine = layout.columns[i].len() as int;
            let other = layout.columns[j].len() as int;
            &&& readable(kinds, count as nat) ==> reading_order(layout.columns).filter(
                other_than(id),
            ) == with_last(workspace.grid@.columns, last).filter(other_than(id))
            &&& has_star(kinds) || count <= capacity(kinds) ==> {
                &&& kinds[i] matches ColumnKind::Fixed(limit) ==> mine <= limit
                &&& mine >= at_most(kinds[i], other - 1)
                &&& i < j ==> mine >= at_most(kinds[i], other)
            }
            &&& !has_star(kinds) && capacity(kinds) <= count ==> (kinds[i] matches ColumnKind::Fixed(
                limit,
            ) ==> mine == limit + if i == last_side(kinds) {
                count - capacity(kinds)
            } else {
                0
            })
        },
{
    lemma_leads(workspace, last, id);
    let windows = ordered(workspace.grid@.columns, last);
    let rest = others(windows, id);
    lemma_others(windows, id);
    if readable(kinds, rest.len()) {
        deal_reads_back(kinds, id, rest);
    }
    if has_star(kinds) || rest.len() <= capacity(kinds) {
        the_deal_is_even(kinds, id, rest, i, j);
    }
    if !has_star(kinds) && capacity(kinds) <= rest.len() {
        if let ColumnKind::Fixed(limit) = kinds[i] {
            the_surplus_goes_to_the_last_side_column(kinds, id, rest, i, limit);
        }
    }
}

/// A spec that is rejected is reported, and one for fewer than two windows
/// lays nothing out. Either way the workspace stays as it is.
pub proof fn a_rejected_or_idle_spec_changes_nothing(
    workspace: Workspace,
    spec: Seq<char>,
    center: Fraction,
    last: Option<ContainerId>,
)
    ensures
        parsed_spec(spec) matches Err(fault) ==> {
            &&& spec_outcome(workspace, spec, center, last) == Err::<Option<Layout>, ColumnsFault>(
                ColumnsFault::Spec(fault),
            )
            &&& spec_after(workspace, spec, last) == workspace
        },
        parsed_spec(spec) is Ok && reading_order(workspace.grid@.columns).len() < 2 ==> {
            &&& spec_outcome(workspace, spec, center, last) == Ok::<Option<Layout>, ColumnsFault>(
                None,
            )
            &&& spec_after(workspace, spec, last) == workspace
        },
{
    lemma_ordered(workspace.grid@.columns, last);
    lemma_reading_len(workspace.grid@.columns);
}

/// The sum of widths of which a center is worth `wide` and a share `side`.
pub open spec fn worth(widths: Seq<ColumnWidth>, wide: int, side: int) -> int
    decreases widths.len(),
{
    if widths.len() == 0 {
        0
    } else {
        worth(widths.drop_last(), wide, side) + if widths.last() is Center {
            wide
        } else {
            side
        }
    }
}

/// The widths of an applied spec add up to the whole workspace: where the
/// center is worth `wide` of it, and each other column an even share of the
/// rest among as many as its width says.
pub proof fn the_widths_add_up_to_the_whole(
    workspace: Workspace,
    spec: Seq<char>,
    center: Fraction,
    last: Option<ContainerId>,
    layout: Layout,
    whole: int,
    wide: int,
    side: int,
)
    requires
        spec_outcome(workspace, spec, center, last) == Ok::<Option<Layout>, ColumnsFault>(
            Some(layout),
        ),
        layout.widths.len() >= 2,
        layout.widths.len() <= usize::MAX,
        forall|col: int|
            0 <= col < layout.widths.len() ==> (#[trigger] layout.widths[col]
                matches ColumnWidth::Side { sharing, .. } ==> side * sharing == whole - wide),
    ensures
        worth(layout.widths, wide, side) == whole,
{
    let kinds = parsed_spec(spec)->Ok_0;
    lemma_worth(kinds, center.within_limits(), wide, side);
    let others = kinds.len() - 1;
    let col = lemma_some_side_column(kinds);
    assert(layout.widths[col] == (ColumnWidth::Side {
        center: center.within_limits(),
        sharing: others as usize,
    }));
    assert(side * others == whole - wide);
    assert(worth(layout.widths, wide, side) == wide * 1 + side * others);
}

/// Of two columns with one center, one is not the center.
proof fn lemma_some_side_column(kinds: Seq<ColumnKind>) -> (col: int)
    requires
        center_count(kinds) < kinds.len(),
    ensures
        0 <= col < kinds.len(),
        !(kinds[col] is Center),
    decreases kinds.len(),
{
    if kinds.last() is Center {
        let col = lemma_some_side_column(kinds.drop_last());
        assert(kinds.drop_last()[col] == kinds[col]);
        col
    } else {
        kinds.len() - 1
    }
}

/// The widths of a spec are worth its center and its sides.
proof fn lemma_worth(kinds: Seq<ColumnKind>, center: Fraction, wide: int, side: int)
    ensures
        worth(template_widths(kinds, center), wide, side) == wide * center_count(kinds) + side * (
        kinds.len() - center_count(kinds)),
    decreases kinds.len(),
{
    let widths = template_widths(kinds, center);
    if kinds.len() > 0 {
        let head = kinds.drop_last();
        lemma_worth_of_head(kinds, head, center, wide, side);
        lemma_worth(head, center, wide, side);
        let centers = center_count(head) as int;
        let sides = head.len() - centers;
        assert(wide * (centers + 1) == wide * centers + wide) by (nonlinear_arith);
        assert(side * (sides + 1) == side * sides + side) by (nonlinear_arith);
        if kinds.last() is Center {
            assert(widths.last() is Center);
            assert(kinds.len() - center_count(kinds) == sides);
            assert(center_count(kinds) as int == centers + 1);
        } else {
            assert(!(widths.last() is Center));
            assert(kinds.len() - center_count(kinds) == sides + 1);
            assert(center_count(kinds) as int == centers);
        }
    } else {
        assert(center_count(kinds) == 0);
        assert(wide * 0 + side * 0 == 0) by (nonlinear_arith);
    }
}

/// The worth of widths does not depend on how many share.
proof fn lemma_worth_of_head(
    kinds: Seq<ColumnKind>,
    head: Seq<ColumnKind>,
    center: Fraction,
    wide: int,
    side: int,
)
    requires
        kinds.len() > 0,
        head == kinds.drop_last(),
    ensures
        worth(template_widths(kinds, center).drop_last(), wide, side) == worth(
            template_widths(head, center),
            wide,
            side,
        ),
{
    let a = template_widths(kinds, center).drop_last();
    let b = template_widths(head, center);
    assert forall|i: int| 0 <= i < b.len() implies (#[trigger] a[i] is Center) == (b[i]
        is Center) by {
        assert(head[i] == kinds[i]);
    }
    lemma_worth_by_kind(a, b, wide, side);
}

/// Widths that are centers at the same columns are worth the same.
proof fn lemma_worth_by_kind(a: Seq<ColumnWidth>, b: Seq<ColumnWidth>, wide: int, side: int)
    requires
        a.len() == b.len(),
        forall|i: int| 0 <= i < b.len() ==> (#[trigger] a[i] is Center) == (b[i] is Center),
    ensures
        worth(a, wide, side) == worth(b, wide, side),
    decreases a.len(),
{
    if a.len() > 0 {
        assert forall|i: int| 0 <= i < b.drop_last().len() implies (#[trigger] a.drop_last()[i]
            is Center) == (b.drop_last()[i] is Center) by {
            assert((a[i] is Center) == (b[i] is Center));
        }
        lemma_worth_by_kind(a.drop_last(), b.drop_last(), wide, side);
        assert((a[a.len() - 1] is Center) == (b[a.len() - 1] is Center));
    }
}

/// A grid of `count` columns has that many columns of the same width. The
/// windows are dealt to them in their order: row by row, left to right, they
/// read as they did before, and no column is longer than one left of it or
/// shorter by more than one window. With fewer than four windows, or no
/// column, there is no grid.
pub proof fn a_grid_deals_the_windows_in_order(
    workspace: Workspace,
    count: nat,
    last: Option<ContainerId>,
    i: int,
    j: int,
)
    requires
        workspace.grid@.well_formed(),
        count <= usize::MAX,
    ensures
        reading_order(workspace.grid@.columns).len() < 4 || count == 0 <==> grid_layout(
            workspace,
            count,
            last,
        ) is None,
        grid_layout(workspace, count, last) matches Some(layout) ==> {
            &&& layout.columns.len() == count
            &&& layout.widths.len() == count
            &&& 0 <= i < count ==> layout.widths[i] == ColumnWidth::Even(count as usize)
            &&& reading_order(layout.columns) == with_last(workspace.grid@.columns, last)
            &&& 0 <= i < j < count ==> layout.columns[j].len() <= layout.columns[i].len()
                && layout.columns[i].len() <= layout.columns[j].len() + 1
        },
{
    let columns = workspace.grid@.columns;
    let windows = ordered(columns, last);
    lemma_ordered(columns, last);
    lemma_reading_len(columns);
    the_order_is_the_reading_order(columns, last);
    if count > 0 {
        grid_reads_back(count, windows);
        if 0 <= i < j < count {
            a_grid_is_even(count, windows, i, j);
        }
    }
}

/// A workspace with columns of its own uses them, whatever its monitor's
/// default. In grid mode with at least four windows it is a grid of two
/// columns, and nothing is designated. Otherwise its spec is applied: as it
/// is, or mirrored where the stack is on the right.
pub proof fn assigned_columns_are_reapplied(
    workspace: Workspace,
    columns: ColumnLayout,
    last: Option<ContainerId>,
    default: MonitorDefault,
)
    requires
        workspace.columns == Some(columns),
    ensures
        ({
            let spec = if workspace.columns_mode == ColumnsMode::MasterStackRight {
                reversed_spec(columns.spec@)
            } else {
                columns.spec@
            };
            let grid = workspace.columns_mode == ColumnsMode::Grid && reading_order(
                workspace.grid@.columns,
            ).len() >= 4;
            &&& grid ==> reapply_outcome(workspace, last, default) == Ok::<
                Option<Layout>,
                ColumnsFault,
            >(grid_layout(workspace, 2, last))
            &&& grid ==> reapply_after(workspace, last, default) == workspace
            &&& !grid ==> reapply_outcome(workspace, last, default) == spec_outcome(
                workspace,
                spec,
                columns.center,
                last,
            )
            &&& !grid ==> reapply_after(workspace, last, default) == spec_after(
                workspace,
                spec,
                last,
            )
        }),
{
    lemma_reading_len(workspace.grid@.columns);
}

/// A workspace without columns of its own is laid out by those of its
/// monitor as if they were its own.
pub proof fn default_columns_are_reapplied_like_assigned_ones(
    workspace: Workspace,
    columns: ColumnLayout,
    last: Option<ContainerId>,
    other: MonitorDefault,
)
    requires
        workspace.columns is None,
    ensures
        ({
            let default = MonitorDefault::Matched(Some(columns));
            let assigned = workspace.with_columns(Some(columns));
            &&& reapply_outcome(workspace, last, default) == reapply_outcome(assigned, last, other)
            &&& reapply_after(workspace, last, default).with_columns(Some(columns))
                == reapply_after(assigned, last, other)
            &&& reapply_after(workspace, last, default).columns is None
        }),
{
}

/// A workspace without columns of its own and of its monitor is not laid
/// out; one whose monitor is missing or cannot be measured says so. Nothing
/// changes.
pub proof fn a_workspace_without_columns_is_left_alone(
    workspace: Workspace,
    last: Option<ContainerId>,
    default: MonitorDefault,
)
    requires
        workspace.columns is None,
        !(default matches MonitorDefault::Matched(Some(_))),
    ensures
        reapply_after(workspace, last, default) == workspace,
        match default {
            MonitorDefault::NoMonitor => reapply_outcome(workspace, last, default) == Err::<
                Option<Layout>,
                ColumnsFault,
            >(ColumnsFault::NoMonitor),
            MonitorDefault::NoMonitorRect => reapply_outcome(workspace, last, default) == Err::<
                Option<Layout>,
                ColumnsFault,
            >(ColumnsFault::NoMonitorRect),
            _ => reapply_outcome(workspace, last, default) == Ok::<Option<Layout>, ColumnsFault>(
                None,
            ),
        },
{
}

/// The mode goes from the stack on the left to the grid, from there to the
/// stack on the right, and from there back.
pub proof fn the_mode_cycles(mode: ColumnsMode)
    ensures
        mode == ColumnsMode::MasterStackLeft <==> next_mode(mode) == ColumnsMode::Grid,
        mode == ColumnsMode::Grid <==> next_mode(mode) == ColumnsMode::MasterStackRight,
        mode == ColumnsMode::MasterStackRight <==> next_mode(mode) == ColumnsMode::MasterStackLeft,
{
}

/// A column and its width.
pub open spec fn paired<W>(columns: Seq<Seq<ContainerId>>, widths: Seq<W>) -> Seq<
    (Seq<ContainerId>, W),
> {
    Seq::new(columns.len(), |col: int| (columns[col], widths[col]))
}

/// What is shown is the columns with a window, in their order and each with
/// its own width; the empty columns are dropped with theirs.
pub proof fn what_is_shown_keeps_columns_and_widths_together<W>(
    columns: Seq<Seq<ContainerId>>,
    widths: Seq<W>,
)
    requires
        columns.len() == widths.len(),
    ensures
        visible(columns).len() == visible_widths(columns, widths).len(),
        paired(visible(columns), visible_widths(columns, widths)) == paired(
            columns,
            widths,
        ).filter(|pair: (Seq<ContainerId>, W)| pair.0.len() > 0),
{
    lemma_shown_pairs(columns, widths, |pair: (Seq<ContainerId>, W)| pair.0.len() > 0);
}

/// The shown columns with their widths, by a test for a window.
proof fn lemma_shown_pairs<W>(
    columns: Seq<Seq<ContainerId>>,
    widths: Seq<W>,
    some: spec_fn((Seq<ContainerId>, W)) -> bool,
)
    requires
        columns.len() <= widths.len(),
        forall|pair: (Seq<ContainerId>, W)| #[trigger] some(pair) == (pair.0.len() > 0),
    ensures
        visible(columns).len() == visible_widths(columns, widths).len(),
        paired(visible(columns), visible_widths(columns, widths)) == paired(
            columns,
            widths,
        ).filter(some),
    decreases columns.len(),
{
    reveal(Seq::filter);
    let all = paired(columns, widths);
    if columns.len() > 0 {
        let head = columns.drop_last();
        lemma_shown_pairs(head, widths, some);
        assert(all.drop_last() =~= paired(head, widths));
        if columns.last().len() > 0 {
            assert(paired(visible(columns), visible_widths(columns, widths)) =~= paired(
                visible(head),
                visible_widths(head, widths),
            ).push((columns.last(), widths[columns.len() - 1])));
        }
    } else {
        assert(paired(visible(columns), visible_widths(columns, widths)) =~= all.filter(some));
    }
}

} // verus!
