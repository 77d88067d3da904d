//! The order in which windows are dealt to columns, and what follows from
//! it.

use crate::columns::reading::{
    depth, lemma_depth_bound, lemma_pooled_push, lemma_rows_below, other_than, pooled,
    reading_order, row_upto, rows_upto,
};
use crate::columns::spec::{center_count, ColumnKind};
use vstd::arithmetic::div_mod::lemma_mod_sub_multiples_vanish;
use vstd::arithmetic::div_mod::lemma_small_mod;
use vstd::multiset::Multiset;
use vstd::prelude::*;

verus! {

/// Whether a column of this kind takes a window in this row of the deal.
pub open spec fn takes(kind: ColumnKind, row: nat) -> bool {
    match kind {
        ColumnKind::Center => false,
        ColumnKind::Fixed(count) => row < count,
        ColumnKind::Star => true,
    }
}

/// How many of the columns left of `col` take a window in this row.
pub open spec fn open_before(kinds: Seq<ColumnKind>, row: nat, col: int) -> nat
    decreases col,
{
    if col <= 0 {
        0
    } else {
        open_before(kinds, row, col - 1) + if takes(kinds[col - 1], row) {
            1nat
        } else {
            0
        }
    }
}

/// How many columns take a window in this row.
pub open spec fn open_count(kinds: Seq<ColumnKind>, row: nat) -> nat {
    open_before(kinds, row, kinds.len() as int)
}

/// The column, from `col` on, that takes the `nth` window of this row.
pub open spec fn nth_open(kinds: Seq<ColumnKind>, row: nat, nth: nat, col: int) -> int
    decreases kinds.len() - col,
{
    if col >= kinds.len() {
        col
    } else if !takes(kinds[col], row) {
        nth_open(kinds, row, nth, col + 1)
    } else if nth == 0 {
        col
    } else {
        nth_open(kinds, row, (nth - 1) as nat, col + 1)
    }
}

/// The last column that is not the center, or -1 when there is none.
pub open spec fn last_side(kinds: Seq<ColumnKind>) -> int
    decreases kinds.len(),
{
    if kinds.len() == 0 {
        -1
    } else if kinds.last() is Center {
        last_side(kinds.drop_last())
    } else {
        kinds.len() - 1
    }
}

/// The column that window `i` of those dealt from row `row` on lands in:
/// each row goes left to right over the columns that still take a window,
/// and once there are none left, everything goes to the last side column.
pub open spec fn deal_from(kinds: Seq<ColumnKind>, row: nat, i: nat) -> int
    decreases i,
{
    let open = open_count(kinds, row);
    if open == 0 {
        last_side(kinds)
    } else if i < open {
        nth_open(kinds, row, i, 0)
    } else {
        deal_from(kinds, row + 1, (i - open) as nat)
    }
}

/// The column that leftover window `i` lands in.
pub open spec fn deal(kinds: Seq<ColumnKind>, i: nat) -> int {
    deal_from(kinds, 0, i)
}

/// The windows that `place` puts in column `col`, in their order.
pub open spec fn stacked<T>(place: spec_fn(nat) -> int, windows: Seq<T>, col: int) -> Seq<T>
    decreases windows.len(),
{
    if windows.len() == 0 {
        Seq::empty()
    } else {
        let before = stacked(place, windows.drop_last(), col);
        if place((windows.len() - 1) as nat) == col {
            before.push(windows.last())
        } else {
            before
        }
    }
}

/// The place in the deal that a spec gives each leftover window.
pub open spec fn dealer(kinds: Seq<ColumnKind>) -> spec_fn(nat) -> int {
    |i: nat| deal(kinds, i)
}

/// The leftover windows that column `col` receives, top to bottom.
pub open spec fn dealt<T>(kinds: Seq<ColumnKind>, rest: Seq<T>, col: int) -> Seq<T> {
    stacked(dealer(kinds), rest, col)
}

/// The columns that `center` and `rest` are distributed into.
pub open spec fn distributed<T>(kinds: Seq<ColumnKind>, center: T, rest: Seq<T>) -> Seq<Seq<T>> {
    Seq::new(
        kinds.len(),
        |col: int|
            if kinds[col] is Center {
                seq![center]
            } else {
                dealt(kinds, rest, col)
            },
    )
}

/// The count of open columns grows from left to right.
pub proof fn lemma_open_before_grows(kinds: Seq<ColumnKind>, row: nat, a: int, b: int)
    requires
        0 <= a <= b <= kinds.len(),
    ensures
        open_before(kinds, row, a) <= open_before(kinds, row, b) <= open_before(kinds, row, a) + (b
            - a),
    decreases b - a,
{
    if a < b {
        lemma_open_before_grows(kinds, row, a, b - 1);
    }
}

/// The column that takes a window in a row takes the one whose number is
/// the count of open columns left of it.
pub proof fn lemma_nth_open(kinds: Seq<ColumnKind>, row: nat, from: int, col: int)
    requires
        0 <= from <= col < kinds.len(),
        takes(kinds[col], row),
    ensures
        open_before(kinds, row, from) <= open_before(kinds, row, col),
        nth_open(
            kinds,
            row,
            (open_before(kinds, row, col) - open_before(kinds, row, from)) as nat,
            from,
        ) == col,
    decreases col - from,
{
    lemma_open_before_grows(kinds, row, from, col);
    if from < col {
        lemma_open_before_grows(kinds, row, from + 1, col);
        lemma_nth_open(kinds, row, from + 1, col);
    }
}

/// The column that takes the `nth` window of a row.
proof fn lemma_nth_open_is_open(kinds: Seq<ColumnKind>, row: nat, nth: nat, from: int)
    requires
        0 <= from <= kinds.len(),
        nth + open_before(kinds, row, from) < open_count(kinds, row),
    ensures
        from <= nth_open(kinds, row, nth, from) < kinds.len(),
        takes(kinds[nth_open(kinds, row, nth, from)], row),
        open_before(kinds, row, nth_open(kinds, row, nth, from)) == open_before(kinds, row, from)
            + nth,
    decreases kinds.len() - from,
{
    if from < kinds.len() {
        if !takes(kinds[from], row) {
            lemma_nth_open_is_open(kinds, row, nth, from + 1);
        } else if nth > 0 {
            lemma_nth_open_is_open(kinds, row, (nth - 1) as nat, from + 1);
        }
    }
}

/// The last side column is a side column, unless there is none.
pub proof fn lemma_last_side(kinds: Seq<ColumnKind>)
    ensures
        -1 <= last_side(kinds) < kinds.len(),
        last_side(kinds) >= 0 ==> !(kinds[last_side(kinds)] is Center),
        forall|col: int|
            last_side(kinds) < col < kinds.len() ==> #[trigger] kinds[col] is Center,
    decreases kinds.len(),
{
    if kinds.len() > 0 && kinds.last() is Center {
        lemma_last_side(kinds.drop_last());
        assert forall|col: int| last_side(kinds) < col < kinds.len() implies #[trigger] kinds[col]
            is Center by {
            if col < kinds.len() - 1 {
                assert(kinds.drop_last()[col] == kinds[col]);
            }
        }
    }
}

/// Every window is dealt to a side column, as long as there is one.
pub proof fn lemma_deal_from_in_range(kinds: Seq<ColumnKind>, row: nat, i: nat)
    requires
        last_side(kinds) >= 0,
    ensures
        0 <= deal_from(kinds, row, i) < kinds.len(),
        !(kinds[deal_from(kinds, row, i)] is Center),
    decreases i,
{
    lemma_last_side(kinds);
    let open = open_count(kinds, row);
    if open > 0 {
        if i < open {
            lemma_nth_open_is_open(kinds, row, i, 0);
        } else {
            lemma_deal_from_in_range(kinds, row + 1, (i - open) as nat);
        }
    }
}

/// How many windows the rows above `row` take.
pub open spec fn slots_above(kinds: Seq<ColumnKind>, row: nat) -> nat
    decreases row,
{
    if row == 0 {
        0
    } else {
        slots_above(kinds, (row - 1) as nat) + open_count(kinds, (row - 1) as nat)
    }
}

/// Whether every row above `row` takes a window.
spec fn open_above(kinds: Seq<ColumnKind>, row: nat) -> bool {
    forall|k: nat| k < row ==> #[trigger] open_count(kinds, k) > 0
}

/// The deal reaches row `row` after the slots above it.
proof fn lemma_deal_at(kinds: Seq<ColumnKind>, row: nat, x: nat)
    requires
        open_above(kinds, row),
    ensures
        deal(kinds, slots_above(kinds, row) + x) == deal_from(kinds, row, x),
    decreases row,
{
    if row > 0 {
        let above = (row - 1) as nat;
        lemma_deal_at(kinds, above, open_count(kinds, above) + x);
        assert(open_count(kinds, above) > 0);
    }
}

/// The windows stacked from the head of a sequence are the head of those
/// stacked from the whole.
pub proof fn lemma_stacked_prefix<T>(
    place: spec_fn(nat) -> int,
    windows: Seq<T>,
    at: int,
    col: int,
)
    requires
        0 <= at <= windows.len(),
    ensures
        stacked(place, windows.take(at), col).is_prefix_of(stacked(place, windows, col)),
    decreases windows.len() - at,
{
    if at < windows.len() {
        assert(windows.take(at + 1).drop_last() =~= windows.take(at));
        lemma_stacked_prefix(place, windows, at + 1, col);
    } else {
        assert(windows.take(at) =~= windows);
    }
}

/// How many windows a column of this kind holds when the deal is at row
/// `row`, before or after its turn in that row.
spec fn held(kind: ColumnKind, row: nat, passed: bool) -> nat {
    match kind {
        ColumnKind::Center => 0,
        ColumnKind::Fixed(count) => if row < count {
            row + if passed {
                1nat
            } else {
                0
            }
        } else {
            count as nat
        },
        ColumnKind::Star => row + if passed {
            1nat
        } else {
            0
        },
    }
}

/// The number of windows in each column when `turn` columns of row `row`
/// have had their turn.
proof fn lemma_held<T>(kinds: Seq<ColumnKind>, windows: Seq<T>, row: nat, turn: nat, col: int)
    requires
        open_above(kinds, row),
        turn <= open_count(kinds, row),
        windows.len() == slots_above(kinds, row) + turn,
        0 <= col < kinds.len(),
    ensures
        dealt(kinds, windows, col).len() == held(
            kinds[col],
            row,
            open_before(kinds, row, col) < turn,
        ),
    decreases row, turn,
{
    if turn > 0 {
        let before = windows.drop_last();
        let last = (turn - 1) as nat;
        lemma_held(kinds, before, row, last, col);
        lemma_deal_at(kinds, row, last);
        lemma_nth_open_is_open(kinds, row, last, 0);
        let target = nth_open(kinds, row, last, 0);
        assert(dealer(kinds)((windows.len() - 1) as nat) == target);
        if takes(kinds[col], row) && open_before(kinds, row, col) == last {
            lemma_nth_open(kinds, row, 0, col);
            assert(col == target);
        }
    } else if row > 0 {
        let above = (row - 1) as nat;
        assert(open_above(kinds, above));
        lemma_held(kinds, windows, above, open_count(kinds, above), col);
        lemma_open_before_grows(kinds, above, col, kinds.len() as int);
        if takes(kinds[col], above) {
            lemma_open_before_grows(kinds, above, col + 1, kinds.len() as int);
        }
    } else {
        assert(dealt(kinds, windows, col).len() == 0);
    }
}

/// The window in row `row` of column `col` is the one with the number of
/// that slot.
proof fn lemma_slot<T>(kinds: Seq<ColumnKind>, windows: Seq<T>, row: nat, col: int)
    requires
        open_above(kinds, row),
        0 <= col < kinds.len(),
        takes(kinds[col], row),
        slots_above(kinds, row) + open_before(kinds, row, col) < windows.len(),
    ensures
        dealt(kinds, windows, col).len() > row,
        dealt(kinds, windows, col)[row as int] == windows[(slots_above(kinds, row)
            + open_before(kinds, row, col)) as int],
{
    let turn = open_before(kinds, row, col);
    let at = (slots_above(kinds, row) + turn) as int;
    lemma_open_before_grows(kinds, row, col + 1, kinds.len() as int);
    lemma_held(kinds, windows.take(at), row, turn, col);
    lemma_deal_at(kinds, row, turn);
    lemma_nth_open(kinds, row, 0, col);
    let head = windows.take(at + 1);
    assert(head.drop_last() =~= windows.take(at));
    assert(dealer(kinds)(at as nat) == col);
    assert(dealt(kinds, head, col) == dealt(kinds, windows.take(at), col).push(windows[at]));
    lemma_stacked_prefix(dealer(kinds), windows, at + 1, col);
    assert(dealt(kinds, head, col)[row as int] == windows[at]);
}

/// The slots above a row are no fewer than those above an earlier row.
proof fn lemma_slots_above_grow(kinds: Seq<ColumnKind>, a: nat, b: nat)
    requires
        a <= b,
    ensures
        slots_above(kinds, a) <= slots_above(kinds, b),
    decreases b - a,
{
    if a < b {
        lemma_slots_above_grow(kinds, a, (b - 1) as nat);
    }
}

/// The side columns of a distribution, with nothing in the center.
spec fn sides<T>(kinds: Seq<ColumnKind>, rest: Seq<T>) -> Seq<Seq<T>> {
    Seq::new(
        kinds.len(),
        |col: int|
            if kinds[col] is Center {
                Seq::empty()
            } else {
                dealt(kinds, rest, col)
            },
    )
}

/// The first `col` columns of a row hold the windows of that row, as far
/// as the deal got. The deal ended in row `end`, after `turn` columns.
proof fn lemma_row_of_sides<T>(
    kinds: Seq<ColumnKind>,
    rest: Seq<T>,
    end: nat,
    turn: nat,
    row: nat,
    col: int,
)
    requires
        open_above(kinds, end),
        turn <= open_count(kinds, end),
        rest.len() == slots_above(kinds, end) + turn,
        row <= end,
        0 <= col <= kinds.len(),
    ensures
        ({
            let from = slots_above(kinds, row) as int;
            let upto = from + open_before(kinds, row, col);
            row_upto(sides(kinds, rest), row as int, col) == rest.subrange(
                from,
                if upto < rest.len() {
                    upto
                } else {
                    rest.len() as int
                },
            ) && from <= rest.len()
        }),
    decreases col,
{
    lemma_slots_above_grow(kinds, row, end);
    let from = slots_above(kinds, row) as int;
    if col == 0 {
        assert(rest.subrange(from, from) =~= Seq::<T>::empty());
    } else {
        lemma_row_of_sides(kinds, rest, end, turn, row, col - 1);
        let c = col - 1;
        let at = from + open_before(kinds, row, c);
        let column = sides(kinds, rest)[c];
        lemma_held(kinds, rest, end, turn, c);
        lemma_open_before_grows(kinds, row, col, kinds.len() as int);
        lemma_open_before_grows(kinds, row, c, col);
        if row < end {
            lemma_slots_above_grow(kinds, row + 1, end);
        }
        if takes(kinds[c], row) && at < rest.len() {
            assert(open_above(kinds, row));
            lemma_slot(kinds, rest, row, c);
            assert(row_upto(sides(kinds, rest), row as int, col) =~= rest.subrange(from, at + 1));
        } else {
            assert(column.len() <= row);
        }
    }
}

/// The rows above `row` hold the first windows of the deal, in order.
proof fn lemma_rows_of_sides<T>(
    kinds: Seq<ColumnKind>,
    rest: Seq<T>,
    end: nat,
    turn: nat,
    row: nat,
)
    requires
        open_above(kinds, end),
        turn <= open_count(kinds, end),
        rest.len() == slots_above(kinds, end) + turn,
        row <= end + 1,
    ensures
        rows_upto(sides(kinds, rest), row as int) == rest.take(
            if slots_above(kinds, row) < rest.len() {
                slots_above(kinds, row) as int
            } else {
                rest.len() as int
            },
        ),
    decreases row,
{
    if row == 0 {
        assert(rest.take(0) =~= Seq::<T>::empty());
    } else {
        let above = (row - 1) as nat;
        lemma_rows_of_sides(kinds, rest, end, turn, above);
        lemma_row_of_sides(kinds, rest, end, turn, above, kinds.len() as int);
        lemma_slots_above_grow(kinds, above, end);
        assert(rows_upto(sides(kinds, rest), row as int) =~= rest.take(
            if slots_above(kinds, row) < rest.len() {
                slots_above(kinds, row) as int
            } else {
                rest.len() as int
            },
        ));
    }
}

/// Filtering out the center leaves the side windows of a row.
proof fn lemma_row_without_center<T>(
    kinds: Seq<ColumnKind>,
    center: T,
    rest: Seq<T>,
    row: int,
    col: int,
)
    requires
        !rest.contains(center),
        0 <= row,
        0 <= col <= kinds.len(),
    ensures
        row_upto(distributed(kinds, center, rest), row, col).filter(other_than(center)) == row_upto(
            sides(kinds, rest),
            row,
            col,
        ),
    decreases col,
{
    let keep = other_than(center);
    if col == 0 {
        reveal(Seq::filter);
    } else {
        lemma_row_without_center(kinds, center, rest, row, col - 1);
        let column = distributed(kinds, center, rest)[col - 1];
        let before = row_upto(distributed(kinds, center, rest), row, col - 1);
        if row < column.len() {
            before.lemma_filter_push(column[row], keep);
            if !(kinds[col - 1] is Center) {
                lemma_stacked_from(dealer(kinds), rest, col - 1, row);
            }
        }
    }
}

/// A stacked window is one of the windows.
pub proof fn lemma_stacked_from<T>(
    place: spec_fn(nat) -> int,
    windows: Seq<T>,
    col: int,
    row: int,
)
    requires
        0 <= row < stacked(place, windows, col).len(),
    ensures
        windows.contains(stacked(place, windows, col)[row]),
    decreases windows.len(),
{
    if windows.len() > 0 {
        let before = stacked(place, windows.drop_last(), col);
        if row < before.len() {
            lemma_stacked_from(place, windows.drop_last(), col, row);
            let k = choose|k: int|
                0 <= k < windows.drop_last().len() && windows.drop_last()[k] == before[row];
            assert(windows[k] == before[row]);
        } else {
            assert(windows[windows.len() - 1] == stacked(place, windows, col)[row]);
        }
    }
}

/// Filtering out the center leaves the side windows of the rows above.
proof fn lemma_rows_without_center<T>(
    kinds: Seq<ColumnKind>,
    center: T,
    rest: Seq<T>,
    row: int,
)
    requires
        !rest.contains(center),
    ensures
        rows_upto(distributed(kinds, center, rest), row).filter(other_than(center)) == rows_upto(
            sides(kinds, rest),
            row,
        ),
    decreases row,
{
    let keep = other_than(center);
    if row <= 0 {
        reveal(Seq::filter);
    } else {
        lemma_rows_without_center(kinds, center, rest, row - 1);
        lemma_row_without_center(kinds, center, rest, row - 1, kinds.len() as int);
        Seq::filter_distributes_over_add(
            rows_upto(distributed(kinds, center, rest), row - 1),
            row_upto(distributed(kinds, center, rest), row - 1, kinds.len() as int),
            keep,
        );
    }
}

/// The deal of the first rows reads back in order.
proof fn lemma_reads_back_at<T>(
    kinds: Seq<ColumnKind>,
    center: T,
    rest: Seq<T>,
    end: nat,
    turn: nat,
)
    requires
        open_above(kinds, end),
        turn <= open_count(kinds, end),
        rest.len() == slots_above(kinds, end) + turn,
        !rest.contains(center),
    ensures
        reading_order(distributed(kinds, center, rest)).filter(other_than(center)) == rest,
{
    let columns = distributed(kinds, center, rest);
    let whole = sides(kinds, rest);
    let far = if depth(columns) < depth(whole) {
        depth(whole) as int
    } else {
        depth(columns) as int
    };
    lemma_sides_read_back(kinds, rest, end, turn);
    lemma_rows_below(whole, far);
    lemma_rows_below(columns, far);
    lemma_rows_without_center(kinds, center, rest, far);
}

/// The side columns read back in the order of the deal.
proof fn lemma_sides_read_back<T>(kinds: Seq<ColumnKind>, rest: Seq<T>, end: nat, turn: nat)
    requires
        open_above(kinds, end),
        turn <= open_count(kinds, end),
        rest.len() == slots_above(kinds, end) + turn,
    ensures
        reading_order(sides(kinds, rest)) == rest,
{
    let whole = sides(kinds, rest);
    lemma_rows_of_sides(kinds, rest, end, turn, end + 1);
    assert(rest.take(rest.len() as int) =~= rest);
    assert forall|col: int| 0 <= col < whole.len() implies (#[trigger] whole[col]).len() <= end
        + 1 by {
        lemma_held(kinds, rest, end, turn, col);
    }
    lemma_depth_bound(whole, end + 1);
    lemma_rows_below(whole, (end + 1) as int);
}

/// How many more windows the fixed columns take from row `row` on.
pub open spec fn room_from(kinds: Seq<ColumnKind>, row: nat) -> nat
    decreases kinds.len(),
{
    if kinds.len() == 0 {
        0
    } else {
        room_from(kinds.drop_last(), row) + match kinds.last() {
            ColumnKind::Fixed(count) => if row < count {
                (count - row) as nat
            } else {
                0
            },
            _ => 0,
        }
    }
}

/// The sum of the fixed counts.
pub open spec fn capacity(kinds: Seq<ColumnKind>) -> nat {
    room_from(kinds, 0)
}

/// Whether some column shares the leftovers without limit.
pub open spec fn has_star(kinds: Seq<ColumnKind>) -> bool {
    exists|col: int| 0 <= col < kinds.len() && #[trigger] kinds[col] is Star
}

/// Whether the last side column is a fixed one, and no other fixed column
/// is deeper by more than one window.
pub open spec fn deep_last(kinds: Seq<ColumnKind>) -> bool {
    &&& last_side(kinds) >= 0
    &&& kinds[last_side(kinds)] matches ColumnKind::Fixed(limit)
    &&& forall|col: int|
        0 <= col < kinds.len() ==> (#[trigger] kinds[col] matches ColumnKind::Fixed(count) ==> count
            <= limit + 1)
}

/// Whether a distribution of `count` leftover windows can be read back.
/// It cannot when all the side columns are fixed ones, the windows
/// outnumber their counts, and the last side column, which takes the
/// surplus, starts to do so more than one row above the bottom of a column
/// left of it; nor when there is no side column to take them.
pub open spec fn readable(kinds: Seq<ColumnKind>, count: nat) -> bool {
    has_star(kinds) || count <= capacity(kinds) || deep_last(kinds)
}

/// What a row takes is what the room shrinks by, without a `*` column.
proof fn lemma_room_shrinks(kinds: Seq<ColumnKind>, row: nat)
    requires
        !has_star(kinds),
    ensures
        room_from(kinds, row) == open_count(kinds, row) + room_from(kinds, row + 1),
    decreases kinds.len(),
{
    if kinds.len() > 0 {
        let head = kinds.drop_last();
        assert forall|col: int| 0 <= col < head.len() implies !(#[trigger] head[col] is Star) by {
            assert(kinds[col] == head[col]);
        }
        lemma_room_shrinks(head, row);
        lemma_open_before_of_head(kinds, row, head.len() as int);
        assert(!(kinds[kinds.len() - 1] is Star));
    }
}

/// Columns further right do not count.
proof fn lemma_open_before_of_head(kinds: Seq<ColumnKind>, row: nat, col: int)
    requires
        0 <= col < kinds.len(),
    ensures
        open_before(kinds.drop_last(), row, col) == open_before(kinds, row, col),
    decreases col,
{
    if col > 0 {
        lemma_open_before_of_head(kinds, row, col - 1);
    }
}

/// A `*` column keeps every row open.
proof fn lemma_star_is_open(kinds: Seq<ColumnKind>, row: nat)
    requires
        has_star(kinds),
    ensures
        open_count(kinds, row) > 0,
{
    let col = choose|col: int| 0 <= col < kinds.len() && #[trigger] kinds[col] is Star;
    lemma_open_before_grows(kinds, row, col + 1, kinds.len() as int);
}

/// The row and the turn at which the deal of `left` more windows ends.
proof fn lemma_deal_ends(kinds: Seq<ColumnKind>, row: nat, left: nat) -> (at: (nat, nat))
    requires
        open_above(kinds, row),
        has_star(kinds) || left <= room_from(kinds, row),
    ensures
        open_above(kinds, at.0),
        at.1 <= open_count(kinds, at.0),
        slots_above(kinds, row) + left == slots_above(kinds, at.0) + at.1,
    decreases left,
{
    let open = open_count(kinds, row);
    if left <= open {
        (row, left)
    } else {
        if has_star(kinds) {
            lemma_star_is_open(kinds, row);
        } else {
            lemma_room_shrinks(kinds, row);
            if open == 0 {
                lemma_no_room(kinds, row);
            }
        }
        lemma_deal_ends(kinds, row + 1, (left - open) as nat)
    }
}

/// A row that no column takes leaves no room below it.
proof fn lemma_no_room(kinds: Seq<ColumnKind>, row: nat)
    requires
        open_count(kinds, row) == 0,
    ensures
        room_from(kinds, row) == 0,
    decreases kinds.len(),
{
    if kinds.len() > 0 {
        lemma_open_before_of_head(kinds, row, kinds.len() - 1);
        lemma_no_room(kinds.drop_last(), row);
    }
}

/// Two specs of the same length whose columns take windows in the same
/// rows, as far as this row goes.
proof fn lemma_same_row(a: Seq<ColumnKind>, b: Seq<ColumnKind>, row: nat, nth: nat, col: int)
    requires
        a.len() == b.len(),
        forall|c: int| 0 <= c < a.len() ==> takes(#[trigger] a[c], row) == takes(b[c], row),
        0 <= col <= a.len(),
    ensures
        open_before(a, row, col) == open_before(b, row, col),
        nth_open(a, row, nth, a.len() - col) == nth_open(b, row, nth, a.len() - col),
    decreases col,
{
    if col > 0 {
        lemma_same_row(a, b, row, nth, col - 1);
        if nth > 0 {
            lemma_same_row(a, b, row, (nth - 1) as nat, col - 1);
        }
        assert(takes(a[col - 1], row) == takes(b[col - 1], row));
        assert(takes(a[a.len() - col], row) == takes(b[a.len() - col], row));
    }
}

/// A last side column that is deep enough deals like a `*` column.
proof fn lemma_deep_last_is_star(kinds: Seq<ColumnKind>, row: nat, i: nat)
    requires
        deep_last(kinds),
        !has_star(kinds),
    ensures
        deal_from(kinds, row, i) == deal_from(
            kinds.update(last_side(kinds), ColumnKind::Star),
            row,
            i,
        ),
    decreases i,
{
    let last = last_side(kinds);
    lemma_last_side(kinds);
    let starred = kinds.update(last, ColumnKind::Star);
    let limit = kinds[last]->Fixed_0;
    if row < limit {
        assert forall|c: int| 0 <= c < kinds.len() implies takes(#[trigger] kinds[c], row) == takes(
            starred[c],
            row,
        ) by {}
        lemma_same_row(kinds, starred, row, i, kinds.len() as int);
        lemma_open_before_grows(kinds, row, last + 1, kinds.len() as int);
        if i >= open_count(kinds, row) {
            lemma_deep_last_is_star(kinds, row + 1, (i - open_count(kinds, row)) as nat);
        }
    } else {
        let open = open_count(kinds, row);
        lemma_starred_row(kinds, row, last);
        lemma_starred_row(kinds, row, kinds.len() as int);
        lemma_closed_behind(kinds, row, kinds.len() as int);
        assert(open_count(starred, row) == open + 1);
        if i < open {
            lemma_nth_open_is_open(kinds, row, i, 0);
            let col = nth_open(kinds, row, i, 0);
            assert(!(kinds[col] is Center));
            assert(col < last);
            lemma_starred_row(kinds, row, col);
            lemma_nth_open(starred, row, 0, col);
            assert(nth_open(starred, row, i, 0) == col);
        } else {
            lemma_nth_open(starred, row, 0, last);
            assert(nth_open(starred, row, open, 0) == last);
            lemma_closed_row(kinds, row + 1, kinds.len() as int);
            assert(open_count(kinds, row + 1) == 0);
            assert(deal_from(kinds, row + 1, (i - open) as nat) == last);
            assert(deal_from(kinds, row, i) == last);
            if i > open {
                lemma_deep_last_is_star(kinds, row + 1, (i - open - 1) as nat);
                assert(deal_from(kinds, row + 1, (i - open - 1) as nat) == last);
            }
        }
    }
}

/// Below its count the last side column takes a window as a `*` column
/// only, and the other columns are the same.
proof fn lemma_starred_row(kinds: Seq<ColumnKind>, row: nat, col: int)
    requires
        deep_last(kinds),
        kinds[last_side(kinds)]->Fixed_0 <= row,
        0 <= col <= kinds.len(),
    ensures
        open_before(kinds.update(last_side(kinds), ColumnKind::Star), row, col) == open_before(
            kinds,
            row,
            col,
        ) + if col > last_side(kinds) {
            1nat
        } else {
            0
        },
    decreases col,
{
    lemma_last_side(kinds);
    if col > 0 {
        lemma_starred_row(kinds, row, col - 1);
    }
}

/// No column behind the last side column takes a window.
proof fn lemma_closed_behind(kinds: Seq<ColumnKind>, row: nat, col: int)
    requires
        deep_last(kinds),
        kinds[last_side(kinds)]->Fixed_0 <= row,
        last_side(kinds) <= col <= kinds.len(),
    ensures
        open_before(kinds, row, col) == open_before(kinds, row, last_side(kinds)),
    decreases col,
{
    lemma_last_side(kinds);
    if col > last_side(kinds) {
        lemma_closed_behind(kinds, row, col - 1);
        if col - 1 > last_side(kinds) {
            assert(kinds[col - 1] is Center);
        }
    }
}

/// Further below no fixed column takes a window.
proof fn lemma_closed_row(kinds: Seq<ColumnKind>, row: nat, col: int)
    requires
        deep_last(kinds),
        !has_star(kinds),
        kinds[last_side(kinds)]->Fixed_0 < row,
        0 <= col <= kinds.len(),
    ensures
        open_before(kinds, row, col) == 0,
    decreases col,
{
    if col > 0 {
        lemma_closed_row(kinds, row, col - 1);
        assert(!(kinds[col - 1] is Star));
    }
}

/// Reading a distribution row by row, left to right, and passing over the
/// center, gives the leftover windows back in the order in which they were
/// dealt.
pub proof fn deal_reads_back<T>(kinds: Seq<ColumnKind>, center: T, rest: Seq<T>)
    requires
        readable(kinds, rest.len()),
        !rest.contains(center),
    ensures
        reading_order(distributed(kinds, center, rest)).filter(other_than(center)) == rest,
{
    if has_star(kinds) || rest.len() <= capacity(kinds) {
        let (end, turn) = lemma_deal_ends(kinds, 0, rest.len());
        lemma_reads_back_at(kinds, center, rest, end, turn);
    } else {
        let last = last_side(kinds);
        lemma_last_side(kinds);
        let starred = kinds.update(last, ColumnKind::Star);
        assert(starred[last] is Star);
        assert forall|i: nat| #[trigger] dealer(kinds)(i) == dealer(starred)(i) by {
            lemma_deep_last_is_star(kinds, 0, i);
        }
        assert(dealer(kinds) =~= dealer(starred));
        assert(distributed(kinds, center, rest) =~= distributed(starred, center, rest));
        let (end, turn) = lemma_deal_ends(starred, 0, rest.len());
        lemma_reads_back_at(starred, center, rest, end, turn);
    }
}

/// Distributing what was read back from a distribution changes nothing.
pub proof fn deal_is_idempotent<T>(kinds: Seq<ColumnKind>, center: T, rest: Seq<T>)
    requires
        readable(kinds, rest.len()) || last_side(kinds) < 0,
        !rest.contains(center),
    ensures
        ({
            let columns = distributed(kinds, center, rest);
            let read = reading_order(columns).filter(other_than(center));
            distributed(kinds, center, read) == columns
        }),
{
    if last_side(kinds) < 0 {
        lemma_last_side(kinds);
        let columns = distributed(kinds, center, rest);
        let read = reading_order(columns).filter(other_than(center));
        assert(distributed(kinds, center, read) =~= columns);
    } else {
        deal_reads_back(kinds, center, rest);
    }
}

/// One more leftover window goes to the bottom of the column whose turn it
/// is, and every other window keeps its column and its row.
pub proof fn deal_is_prefix_stable<T>(kinds: Seq<ColumnKind>, center: T, rest: Seq<T>, added: T)
    requires
        last_side(kinds) >= 0,
    ensures
        ({
            let columns = distributed(kinds, center, rest);
            let col = deal(kinds, rest.len());
            &&& 0 <= col < kinds.len()
            &&& !(kinds[col] is Center)
            &&& distributed(kinds, center, rest.push(added)) == columns.update(
                col,
                columns[col].push(added),
            )
        }),
{
    lemma_deal_from_in_range(kinds, 0, rest.len());
    let columns = distributed(kinds, center, rest);
    let col = deal(kinds, rest.len());
    let grown = rest.push(added);
    assert(grown.drop_last() =~= rest);
    assert(dealer(kinds)(rest.len()) == col);
    assert(distributed(kinds, center, grown) =~= columns.update(col, columns[col].push(added)));
}

/// A leftover window lands in the same column and row no matter how many
/// windows come after it.
pub proof fn deal_ignores_later_windows<T>(
    kinds: Seq<ColumnKind>,
    center: T,
    rest: Seq<T>,
    count: int,
    col: int,
)
    requires
        0 <= count <= rest.len(),
        0 <= col < kinds.len(),
    ensures
        distributed(kinds, center, rest.take(count))[col].is_prefix_of(
            distributed(kinds, center, rest)[col],
        ),
{
    lemma_stacked_prefix(dealer(kinds), rest, count, col);
}

/// Without leftover windows only the center is placed, once per `C`.
proof fn lemma_only_centers<T>(kinds: Seq<ColumnKind>, center: T, window: T)
    ensures
        pooled(distributed(kinds, center, Seq::<T>::empty())).count(window) == if window == center {
            center_count(kinds)
        } else {
            0
        },
    decreases kinds.len(),
{
    broadcast use vstd::seq_lib::group_to_multiset_ensures;

    if kinds.len() > 0 {
        let head = kinds.drop_last();
        lemma_only_centers(head, center, window);
        let columns = distributed(kinds, center, Seq::<T>::empty());
        assert(columns.drop_last() =~= distributed(head, center, Seq::<T>::empty()));
        if kinds.last() is Center {
            assert(columns.last() =~= Seq::empty().push(center));
            assert(Seq::<T>::empty().to_multiset() =~= Multiset::empty());
            assert(columns.last().to_multiset() =~= Multiset::empty().insert(center));
        } else {
            assert(columns.last() =~= Seq::<T>::empty());
            assert(columns.last().to_multiset() =~= Multiset::<T>::empty());
        }
    }
}

/// A distribution holds the center and every leftover window, each as
/// often as it was handed in: nothing is dropped and nothing is repeated.
pub proof fn deal_drops_nothing<T>(kinds: Seq<ColumnKind>, center: T, rest: Seq<T>)
    requires
        center_count(kinds) == 1,
        last_side(kinds) >= 0 || rest.len() == 0,
    ensures
        pooled(distributed(kinds, center, rest)) == rest.to_multiset().insert(center),
    decreases rest.len(),
{
    broadcast use vstd::seq_lib::group_to_multiset_ensures;

    if rest.len() == 0 {
        assert(rest =~= Seq::<T>::empty());
        assert(rest.to_multiset() =~= Multiset::<T>::empty());
        assert forall|w: T|
            #[trigger] pooled(distributed(kinds, center, rest)).count(w)
                == rest.to_multiset().insert(center).count(w) by {
            lemma_only_centers(kinds, center, w);
        }
        assert(pooled(distributed(kinds, center, rest)) =~= rest.to_multiset().insert(center));
    } else {
        let head = rest.drop_last();
        deal_drops_nothing(kinds, center, head);
        deal_is_prefix_stable(kinds, center, head, rest.last());
        assert(head.push(rest.last()) =~= rest);
        lemma_pooled_push(
            distributed(kinds, center, head),
            deal(kinds, head.len()),
            rest.last(),
        );
        assert(rest.to_multiset() =~= head.to_multiset().insert(rest.last()));
        assert(pooled(distributed(kinds, center, rest)) =~= rest.to_multiset().insert(center));
    }
}

/// What a column of this kind holds of `wanted` windows: a fixed column no
/// more than its count.
pub open spec fn at_most(kind: ColumnKind, wanted: int) -> int {
    match kind {
        ColumnKind::Fixed(count) => if wanted < count {
            wanted
        } else {
            count as int
        },
        _ => wanted,
    }
}

/// The leftovers are shared evenly: one window per column, row after row.
/// No fixed column holds more than its count. Unless it is full, a column
/// holds at most one window less than any other side column, and no fewer
/// than a column right of it.
pub proof fn the_deal_is_even<T>(
    kinds: Seq<ColumnKind>,
    center: T,
    rest: Seq<T>,
    i: int,
    j: int,
)
    requires
        has_star(kinds) || rest.len() <= capacity(kinds),
        0 <= i < kinds.len(),
        0 <= j < kinds.len(),
        !(kinds[i] is Center),
        !(kinds[j] is Center),
    ensures
        ({
            let columns = distributed(kinds, center, rest);
            let mine = columns[i].len() as int;
            let other = columns[j].len() as int;
            &&& kinds[i] matches ColumnKind::Fixed(count) ==> mine <= count
            &&& mine >= at_most(kinds[i], other - 1)
            &&& i < j ==> mine >= at_most(kinds[i], other)
        }),
{
    let (row, turn) = lemma_deal_ends(kinds, 0, rest.len());
    lemma_held(kinds, rest, row, turn, i);
    lemma_held(kinds, rest, row, turn, j);
    if i < j {
        lemma_open_before_grows(kinds, row, i, j);
    }
}

/// The first row in which no column takes a window, once `row` is reached.
proof fn lemma_full_row(kinds: Seq<ColumnKind>, row: nat) -> (full: nat)
    requires
        !has_star(kinds),
        open_above(kinds, row),
    ensures
        open_above(kinds, full),
        open_count(kinds, full) == 0,
        slots_above(kinds, full) == slots_above(kinds, row) + room_from(kinds, row),
    decreases room_from(kinds, row),
{
    lemma_room_shrinks(kinds, row);
    if open_count(kinds, row) == 0 {
        lemma_no_room(kinds, row);
        row
    } else {
        lemma_full_row(kinds, row + 1)
    }
}

/// Where the windows outnumber the counts of the columns, all of them
/// fixed, each column holds its count, and the last side column the
/// surplus on top.
pub proof fn the_surplus_goes_to_the_last_side_column<T>(
    kinds: Seq<ColumnKind>,
    center: T,
    rest: Seq<T>,
    col: int,
    count: usize,
)
    requires
        !has_star(kinds),
        capacity(kinds) <= rest.len(),
        0 <= col < kinds.len(),
        kinds[col] == ColumnKind::Fixed(count),
    ensures
        distributed(kinds, center, rest)[col].len() == count + if col == last_side(kinds) {
            rest.len() - capacity(kinds)
        } else {
            0
        },
    decreases rest.len(),
{
    let full = lemma_full_row(kinds, 0);
    if rest.len() == capacity(kinds) {
        lemma_held(kinds, rest, full, 0, col);
        lemma_open_before_grows(kinds, full, col + 1, kinds.len() as int);
        assert(!takes(kinds[col], full));
    } else {
        let head = rest.drop_last();
        the_surplus_goes_to_the_last_side_column(kinds, center, head, col, count);
        lemma_deal_at(kinds, full, (head.len() - capacity(kinds)) as nat);
        assert(dealer(kinds)(head.len()) == last_side(kinds));
    }
}

/// The column that window `i` of a grid of `count` columns lands in.
pub open spec fn round_robin(count: nat) -> spec_fn(nat) -> int {
    |i: nat| (i % count) as int
}

/// The windows dealt round-robin into `count` columns.
pub open spec fn grid_columns<T>(count: nat, windows: Seq<T>) -> Seq<Seq<T>> {
    Seq::new(count, |col: int| stacked(round_robin(count), windows, col))
}

/// A spec of `count` columns without limit.
spec fn stars(count: nat) -> Seq<ColumnKind> {
    Seq::new(count, |col: int| ColumnKind::Star)
}

/// Every column without limit is open in every row.
proof fn lemma_stars_are_open(count: nat, row: nat, col: int)
    requires
        0 <= col <= count,
    ensures
        open_before(stars(count), row, col) == col,
    decreases col,
{
    if col > 0 {
        lemma_stars_are_open(count, row, col - 1);
    }
}

/// Dealing to columns without limit is dealing round-robin.
proof fn lemma_stars_deal_round_robin(count: nat, row: nat, i: nat)
    requires
        count > 0,
    ensures
        deal_from(stars(count), row, i) == i % count,
    decreases i,
{
    lemma_stars_are_open(count, row, count as int);
    if i < count {
        lemma_stars_are_open(count, row, i as int);
        lemma_nth_open(stars(count), row, 0, i as int);
        lemma_small_mod(i, count);
    } else {
        lemma_stars_deal_round_robin(count, row + 1, (i - count) as nat);
        lemma_mod_sub_multiples_vanish(i as int, count as int);
    }
}

/// Reading a round-robin grid gives the windows back in their order.
pub proof fn grid_reads_back<T>(count: nat, windows: Seq<T>)
    requires
        count > 0,
    ensures
        reading_order(grid_columns(count, windows)) == windows,
{
    let kinds = stars(count);
    assert forall|i: nat| #[trigger] dealer(kinds)(i) == round_robin(count)(i) by {
        lemma_stars_deal_round_robin(count, 0, i);
    }
    assert(dealer(kinds) =~= round_robin(count));
    assert(kinds[0] is Star);
    assert(sides(kinds, windows) =~= grid_columns(count, windows));
    let (end, turn) = lemma_deal_ends(kinds, 0, windows.len());
    lemma_sides_read_back(kinds, windows, end, turn);
}

/// Dealing again what was read back from a round-robin grid changes
/// nothing.
pub proof fn grid_is_idempotent<T>(count: nat, windows: Seq<T>)
    requires
        count > 0,
    ensures
        grid_columns(count, reading_order(grid_columns(count, windows))) == grid_columns(
            count,
            windows,
        ),
{
    grid_reads_back(count, windows);
}

/// One more window goes to the bottom of the next column of a round-robin
/// grid, and every other window keeps its column and its row.
pub proof fn grid_is_prefix_stable<T>(count: nat, windows: Seq<T>, added: T)
    requires
        count > 0,
    ensures
        ({
            let columns = grid_columns(count, windows);
            let col = (windows.len() % count) as int;
            &&& 0 <= col < count
            &&& grid_columns(count, windows.push(added)) == columns.update(
                col,
                columns[col].push(added),
            )
        }),
{
    let columns = grid_columns(count, windows);
    let col = (windows.len() % count) as int;
    assert(0 <= col < count) by (nonlinear_arith)
        requires
            count > 0,
            col == (windows.len() % count) as int,
    ;
    let grown = windows.push(added);
    assert(grown.drop_last() =~= windows);
    assert(round_robin(count)(windows.len()) == col);
    assert(grid_columns(count, grown) =~= columns.update(col, columns[col].push(added)));
}

/// The columns of a round-robin grid are as long as each other, but for the
/// first ones, which may hold one window more.
pub proof fn a_grid_is_even<T>(count: nat, windows: Seq<T>, i: int, j: int)
    requires
        0 <= i < j < count,
    ensures
        grid_columns(count, windows)[j].len() <= grid_columns(count, windows)[i].len(),
        grid_columns(count, windows)[i].len() <= grid_columns(count, windows)[j].len() + 1,
{
    let kinds = stars(count);
    if windows.len() > 0 {
        assert forall|k: nat| #[trigger] dealer(kinds)(k) == round_robin(count)(k) by {
            lemma_stars_deal_round_robin(count, 0, k);
        }
        assert(dealer(kinds) =~= round_robin(count));
        assert(kinds[0] is Star);
        the_deal_is_even(kinds, windows[0], windows, i, j);
        the_deal_is_even(kinds, windows[0], windows, j, i);
    } else {
        assert(stacked(round_robin(count), windows, i).len() == 0);
        assert(stacked(round_robin(count), windows, j).len() == 0);
    }
}

} // verus!
