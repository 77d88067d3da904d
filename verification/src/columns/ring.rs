//! The loop of slots around the center column.

use crate::columns::grid::{cells, total};
use crate::columns::reading::pooled;
use crate::state::ContainerId;
use vstd::arithmetic::div_mod::lemma_add_mod_noop_right;
use vstd::arithmetic::div_mod::lemma_mod_add_multiples_vanish;
use vstd::arithmetic::div_mod::lemma_mod_self_0;
use vstd::arithmetic::div_mod::lemma_mod_sub_multiples_vanish;
use vstd::arithmetic::div_mod::lemma_small_mod;
use vstd::prelude::*;

verus! {

/// The windows column by column, each top to bottom.
pub open spec fn flat<T>(columns: Seq<Seq<T>>) -> Seq<T>
    decreases columns.len(),
{
    if columns.len() == 0 {
        Seq::empty()
    } else {
        flat(columns.drop_last()) + columns.last()
    }
}

/// The number of windows left of column `col`.
pub open spec fn left_of<T>(columns: Seq<Seq<T>>, col: int) -> int {
    total(columns.take(col)) as int
}

/// The windows column by column, each bottom to top.
pub open spec fn climbed<T>(columns: Seq<Seq<T>>) -> Seq<T>
    decreases columns.len(),
{
    if columns.len() == 0 {
        Seq::empty()
    } else {
        climbed(columns.drop_last()) + columns.last().reverse()
    }
}

/// The columns with those left of column `center` upside down.
pub open spec fn upended<T>(columns: Seq<Seq<T>>, center: int) -> Seq<Seq<T>> {
    Seq::new(
        columns.len(),
        |col: int|
            if col < center {
                columns[col].reverse()
            } else {
                columns[col]
            },
    )
}

/// The occupants of a loop's slots once every window has advanced by one
/// slot, or has gone back by one.
pub open spec fn turned<T>(slots: Seq<T>, ccw: bool) -> Seq<T> {
    if ccw {
        slots.drop_first().push(slots.first())
    } else {
        seq![slots.last()] + slots.drop_last()
    }
}

/// The items by column, in columns of the lengths of `shape`.
pub open spec fn shaped<T>(items: Seq<T>, shape: Seq<Seq<T>>) -> Seq<Seq<T>> {
    Seq::new(
        shape.len(),
        |col: int| items.subrange(left_of(shape, col), left_of(shape, col + 1)),
    )
}

/// The occupants of the clockwise loop around column `center`: up each of
/// the columns left of it, from the leftmost on, then down the center and
/// each of the columns right of it. The last slot is the one at the bottom
/// right, and the first one that at the bottom left.
pub open spec fn loop_around<T>(columns: Seq<Seq<T>>, center: int) -> Seq<T> {
    climbed(columns.take(center)) + flat(columns.skip(center))
}

/// The columns with every window advanced by one slot around column
/// `center`, or gone back by one: the turned loop in the same slots.
pub open spec fn rotated<T>(columns: Seq<Seq<T>>, center: int, ccw: bool) -> Seq<Seq<T>> {
    upended(shaped(turned(loop_around(columns, center), ccw), columns), center)
}

/// The columns rotated a number of times.
pub open spec fn rotated_times<T>(
    columns: Seq<Seq<T>>,
    center: int,
    ccw: bool,
    times: nat,
) -> Seq<Seq<T>>
    decreases times,
{
    if times == 0 {
        columns
    } else {
        rotated(rotated_times(columns, center, ccw, (times - 1) as nat), center, ccw)
    }
}

/// The slot of the loop that is at a place of the columns.
pub open spec fn slot_of<T>(columns: Seq<Seq<T>>, center: int, col: int, row: int) -> int {
    left_of(columns, col) + if col < center {
        columns[col].len() - 1 - row
    } else {
        row
    }
}

/// Columns further right hold their windows on top.
pub proof fn lemma_left_of_grows<T>(columns: Seq<Seq<T>>, col: int)
    requires
        0 <= col < columns.len(),
    ensures
        left_of(columns, col + 1) == left_of(columns, col) + columns[col].len(),
        left_of(columns, col + 1) <= total(columns),
    decreases columns.len() - col,
{
    assert(columns.take(col + 1).drop_last() =~= columns.take(col));
    if col + 1 < columns.len() {
        lemma_left_of_grows(columns, col + 1);
    } else {
        assert(columns.take(col + 1) =~= columns);
    }
}

/// What is left of a column is at most everything.
pub proof fn lemma_left_of_bound<T>(columns: Seq<Seq<T>>, col: int)
    requires
        0 <= col <= columns.len(),
    ensures
        0 <= left_of(columns, col) <= total(columns),
{
    if col < columns.len() {
        lemma_left_of_grows(columns, col);
    } else {
        assert(columns.take(col) =~= columns);
    }
}

/// Columns of the same lengths hold as many windows.
pub proof fn lemma_same_shape<T>(a: Seq<Seq<T>>, b: Seq<Seq<T>>, col: int)
    requires
        a.len() == b.len(),
        forall|c: int| 0 <= c < a.len() ==> (#[trigger] a[c]).len() == b[c].len(),
        0 <= col <= a.len(),
    ensures
        left_of(a, col) == left_of(b, col),
        total(a) == total(b),
{
    lemma_same_total(a.take(col), b.take(col));
    lemma_same_total(a, b);
}

proof fn lemma_same_total<T>(a: Seq<Seq<T>>, b: Seq<Seq<T>>)
    requires
        a.len() == b.len(),
        forall|c: int| 0 <= c < a.len() ==> (#[trigger] a[c]).len() == b[c].len(),
    ensures
        total(a) == total(b),
    decreases a.len(),
{
    if a.len() > 0 {
        assert forall|c: int| 0 <= c < a.drop_last().len() implies (
        #[trigger] a.drop_last()[c]).len() == b.drop_last()[c].len() by {
            assert(a[c].len() == b[c].len());
        }
        lemma_same_total(a.drop_last(), b.drop_last());
        assert(a[a.len() - 1].len() == b[a.len() - 1].len());
    }
}

/// The column order holds every window once.
pub proof fn lemma_flat<T>(columns: Seq<Seq<T>>)
    ensures
        flat(columns).len() == total(columns),
        flat(columns).to_multiset() == pooled(columns),
    decreases columns.len(),
{
    broadcast use vstd::seq_lib::group_to_multiset_ensures;

    if columns.len() > 0 {
        lemma_flat(columns.drop_last());
        vstd::seq_lib::lemma_multiset_commutative(flat(columns.drop_last()), columns.last());
    } else {
        assert(flat(columns).to_multiset() =~= vstd::multiset::Multiset::<T>::empty());
    }
}

/// The window at a place of the column order.
pub proof fn lemma_flat_index<T>(columns: Seq<Seq<T>>, col: int, row: int)
    requires
        0 <= col < columns.len(),
        0 <= row < columns[col].len(),
    ensures
        left_of(columns, col) + row < flat(columns).len(),
        flat(columns)[left_of(columns, col) + row] == columns[col][row],
    decreases columns.len(),
{
    lemma_flat(columns);
    lemma_left_of_grows(columns, col);
    let head = columns.drop_last();
    lemma_flat(head);
    if col < head.len() {
        assert(head.take(col) =~= columns.take(col));
        lemma_flat_index(head, col, row);
    } else {
        assert(columns.take(col) =~= head);
    }
}

/// Shaping keeps the lengths of the columns.
pub proof fn lemma_shaped_lengths<T>(items: Seq<T>, shape: Seq<Seq<T>>)
    requires
        items.len() == total(shape),
    ensures
        shaped(items, shape).len() == shape.len(),
        forall|col: int|
            0 <= col < shape.len() ==> (#[trigger] shaped(items, shape)[col]).len()
                == shape[col].len(),
{
    assert forall|col: int| 0 <= col < shape.len() implies (#[trigger] shaped(
        items,
        shape,
    )[col]).len() == shape[col].len() by {
        lemma_left_of_grows(shape, col);
    }
}

/// Shaping keeps the column order.
pub proof fn lemma_flat_of_shaped<T>(items: Seq<T>, shape: Seq<Seq<T>>)
    requires
        items.len() == total(shape),
    ensures
        flat(shaped(items, shape)) == items,
    decreases shape.len(),
{
    if shape.len() == 0 {
        assert(flat(shaped(items, shape)) =~= items);
    } else {
        let head = shape.drop_last();
        let cut = total(head) as int;
        let first = items.take(cut);
        lemma_flat_of_shaped(first, head);
        assert(shape.take(shape.len() - 1) =~= head);
        assert(shape.take(shape.len() as int) =~= shape);
        assert forall|col: int| 0 <= col < head.len() implies #[trigger] shaped(items, shape)[col]
            == shaped(first, head)[col] by {
            lemma_left_of_grows(head, col);
            assert(head.take(col) =~= shape.take(col));
            assert(head.take(col + 1) =~= shape.take(col + 1));
            assert(items.subrange(left_of(shape, col), left_of(shape, col + 1))
                =~= first.subrange(left_of(head, col), left_of(head, col + 1)));
        }
        assert(shaped(items, shape).drop_last() =~= shaped(first, head));
        assert(shaped(items, shape).last() =~= items.skip(cut));
        assert(flat(shaped(items, shape)) =~= items);
    }
}

/// Columns with the same lengths and the same column order are the same.
pub proof fn lemma_shaped_of_flat<T>(columns: Seq<Seq<T>>, shape: Seq<Seq<T>>)
    requires
        columns.len() == shape.len(),
        forall|col: int| 0 <= col < shape.len() ==> (#[trigger] columns[col]).len()
            == shape[col].len(),
    ensures
        shaped(flat(columns), shape) == columns,
{
    lemma_flat(columns);
    assert forall|col: int| 0 <= col < shape.len() implies #[trigger] shaped(
        flat(columns),
        shape,
    )[col] == columns[col] by {
        assert(columns[col].len() == shape[col].len());
        lemma_same_shape(columns, shape, col);
        lemma_same_shape(columns, shape, col + 1);
        lemma_left_of_grows(columns, col);
        assert forall|row: int| 0 <= row < columns[col].len() implies shaped(
            flat(columns),
            shape,
        )[col][row] == columns[col][row] by {
            lemma_flat_index(columns, col, row);
        }
        assert(shaped(flat(columns), shape)[col] =~= columns[col]);
    }
    assert(shaped(flat(columns), shape) =~= columns);
}

/// Turning the columns over keeps their lengths and windows, and turning
/// them over again gives them back.
pub proof fn lemma_upended<T>(columns: Seq<Seq<T>>, center: int)
    ensures
        upended(columns, center).len() == columns.len(),
        forall|col: int|
            0 <= col < columns.len() ==> (#[trigger] upended(columns, center)[col]).len()
                == columns[col].len(),
        upended(upended(columns, center), center) == columns,
        total(upended(columns, center)) == total(columns),
        pooled(upended(columns, center)) == pooled(columns),
    decreases columns.len(),
{
    let over = upended(columns, center);
    assert forall|col: int| 0 <= col < columns.len() implies #[trigger] upended(over, center)[col]
        == columns[col] by {
        assert(upended(over, center)[col] =~= columns[col]);
    }
    assert(upended(over, center) =~= columns);
    if columns.len() > 0 {
        lemma_upended(columns.drop_last(), center);
        assert(over.drop_last() =~= upended(columns.drop_last(), center));
        columns.last().lemma_reverse_to_multiset();
    }
}

/// The column order of two groups of columns is that of one and the other.
proof fn lemma_flat_of_groups<T>(left: Seq<Seq<T>>, right: Seq<Seq<T>>)
    ensures
        flat(left + right) == flat(left) + flat(right),
    decreases right.len(),
{
    let all = left + right;
    if right.len() > 0 {
        lemma_flat_of_groups(left, right.drop_last());
        assert(all.drop_last() =~= left + right.drop_last());
        assert(flat(all) =~= flat(left) + flat(right));
    } else {
        assert(all =~= left);
        assert(flat(all) =~= flat(left) + flat(right));
    }
}

/// Climbing columns is going down them upside down.
proof fn lemma_climbed<T>(columns: Seq<Seq<T>>, center: int)
    requires
        columns.len() <= center,
    ensures
        climbed(columns) == flat(upended(columns, center)),
    decreases columns.len(),
{
    if columns.len() > 0 {
        lemma_climbed(columns.drop_last(), center);
        assert(upended(columns, center).drop_last() =~= upended(columns.drop_last(), center));
    }
}

/// The loop is the column order with the columns left of the center upside
/// down.
pub proof fn lemma_loop_around<T>(columns: Seq<Seq<T>>, center: int)
    requires
        0 <= center <= columns.len(),
    ensures
        loop_around(columns, center) == flat(upended(columns, center)),
        loop_around(columns, center).len() == total(columns),
        loop_around(columns, center).to_multiset() == pooled(columns),
{
    let over = upended(columns, center);
    let left = columns.take(center);
    let right = columns.skip(center);
    lemma_climbed(left, center);
    lemma_flat_of_groups(upended(left, center), right);
    assert(upended(left, center) + right =~= over);
    lemma_upended(columns, center);
    lemma_flat(over);
}

/// The window at a place is in the slot there.
pub proof fn lemma_slot<T>(columns: Seq<Seq<T>>, center: int, col: int, row: int)
    requires
        0 <= center <= columns.len(),
        0 <= col < columns.len(),
        0 <= row < columns[col].len(),
    ensures
        0 <= slot_of(columns, center, col, row) < total(columns),
        loop_around(columns, center)[slot_of(columns, center, col, row)] == columns[col][row],
{
    let over = upended(columns, center);
    lemma_loop_around(columns, center);
    lemma_upended(columns, center);
    assert(over[col].len() == columns[col].len());
    let at = if col < center {
        columns[col].len() - 1 - row
    } else {
        row
    };
    lemma_same_shape(over, columns, col);
    lemma_left_of_bound(columns, col);
    lemma_flat_index(over, col, at);
}

/// Columns of the same lengths with the same loop are the same.
proof fn lemma_same_loop<T>(a: Seq<Seq<T>>, b: Seq<Seq<T>>, center: int)
    requires
        0 <= center <= a.len(),
        a.len() == b.len(),
        forall|col: int| 0 <= col < a.len() ==> (#[trigger] a[col]).len() == b[col].len(),
        loop_around(a, center) == loop_around(b, center),
    ensures
        a == b,
{
    let over_a = upended(a, center);
    let over_b = upended(b, center);
    lemma_loop_around(a, center);
    lemma_loop_around(b, center);
    lemma_upended(a, center);
    lemma_upended(b, center);
    assert forall|col: int| 0 <= col < a.len() implies (#[trigger] over_a[col]).len()
        == over_b[col].len() by {
        assert(a[col].len() == b[col].len());
    }
    lemma_shaped_of_flat(over_a, over_b);
    lemma_shaped_of_flat(over_b, over_b);
}

/// Turning one way and the other gives the loop back.
pub proof fn lemma_turned_back<T>(slots: Seq<T>, ccw: bool)
    requires
        slots.len() > 0,
    ensures
        turned(slots, ccw).len() == slots.len(),
        turned(turned(slots, ccw), !ccw) == slots,
{
    assert(turned(turned(slots, ccw), !ccw) =~= slots);
}

/// Rotating keeps the number of columns and the number of windows in each.
pub proof fn rotation_keeps_the_shape<T>(columns: Seq<Seq<T>>, center: int, ccw: bool)
    requires
        0 <= center < columns.len(),
        total(columns) > 0,
    ensures
        rotated(columns, center, ccw).len() == columns.len(),
        forall|col: int|
            0 <= col < columns.len() ==> (#[trigger] rotated(columns, center, ccw)[col]).len()
                == columns[col].len(),
{
    lemma_rotated_loop(columns, center, ccw);
}

/// Rotating turns the loop and keeps the lengths of the columns.
pub proof fn lemma_rotated_loop<T>(columns: Seq<Seq<T>>, center: int, ccw: bool)
    requires
        0 <= center < columns.len(),
        total(columns) > 0,
    ensures
        loop_around(rotated(columns, center, ccw), center) == turned(
            loop_around(columns, center),
            ccw,
        ),
        rotated(columns, center, ccw).len() == columns.len(),
        forall|col: int|
            0 <= col < columns.len() ==> (#[trigger] rotated(columns, center, ccw)[col]).len()
                == columns[col].len(),
{
    let slots = loop_around(columns, center);
    let moved = turned(slots, ccw);
    let placed = shaped(moved, columns);
    lemma_loop_around(columns, center);
    lemma_turned_back(slots, ccw);
    lemma_shaped_lengths(moved, columns);
    lemma_upended(placed, center);
    lemma_loop_around(rotated(columns, center, ccw), center);
    lemma_flat_of_shaped(moved, columns);
    assert forall|col: int| 0 <= col < columns.len() implies (
    #[trigger] rotated(columns, center, ccw)[col]).len() == columns[col].len() by {
        assert(placed[col].len() == columns[col].len());
    }
}

/// Rotating one way and then the other restores the arrangement.
pub proof fn rotating_back_restores<T>(columns: Seq<Seq<T>>, center: int, ccw: bool)
    requires
        0 <= center < columns.len(),
        total(columns) > 0,
    ensures
        rotated(rotated(columns, center, ccw), center, !ccw) == columns,
{
    let there = rotated(columns, center, ccw);
    let back = rotated(there, center, !ccw);
    lemma_rotated_loop(columns, center, ccw);
    lemma_same_shape(there, columns, center);
    lemma_rotated_loop(there, center, !ccw);
    lemma_loop_around(columns, center);
    lemma_turned_back(loop_around(columns, center), ccw);
    assert forall|col: int| 0 <= col < back.len() implies (#[trigger] back[col]).len()
        == columns[col].len() by {
        assert(there[col].len() == columns[col].len());
    }
    lemma_same_loop(back, columns, center);
}

/// Turning keeps every item.
proof fn lemma_turned_keeps<T>(slots: Seq<T>, ccw: bool)
    requires
        slots.len() > 0,
    ensures
        turned(slots, ccw).to_multiset() == slots.to_multiset(),
{
    if ccw {
        let first = seq![slots.first()];
        vstd::seq_lib::lemma_multiset_commutative(slots.drop_first(), first);
        vstd::seq_lib::lemma_multiset_commutative(first, slots.drop_first());
        assert(first + slots.drop_first() =~= slots);
        assert(slots.drop_first() + first =~= turned(slots, ccw));
    } else {
        let last = seq![slots.last()];
        vstd::seq_lib::lemma_multiset_commutative(slots.drop_last(), last);
        vstd::seq_lib::lemma_multiset_commutative(last, slots.drop_last());
        assert(slots.drop_last() + last =~= slots);
    }
}

/// Rotating keeps every window.
pub proof fn rotation_keeps_every_window<T>(columns: Seq<Seq<T>>, center: int, ccw: bool)
    requires
        0 <= center < columns.len(),
        total(columns) > 0,
    ensures
        pooled(rotated(columns, center, ccw)) == pooled(columns),
{
    lemma_rotated_loop(columns, center, ccw);
    lemma_loop_around(columns, center);
    lemma_loop_around(rotated(columns, center, ccw), center);
    lemma_turned_keeps(loop_around(columns, center), ccw);
}

/// The slot whose window comes to slot `slot` of a loop of `count` slots by
/// a number of rotations.
pub open spec fn source_slot(count: int, slot: int, ccw: bool, times: int) -> int {
    if ccw {
        (slot + times) % count
    } else {
        (slot - times) % count
    }
}

/// After a number of rotations each slot holds the window of its source.
pub proof fn lemma_rotated_times<T>(columns: Seq<Seq<T>>, center: int, ccw: bool, times: nat)
    requires
        0 <= center < columns.len(),
        total(columns) > 0,
    ensures
        rotated_times(columns, center, ccw, times).len() == columns.len(),
        forall|col: int|
            0 <= col < columns.len() ==> (#[trigger] rotated_times(
                columns,
                center,
                ccw,
                times,
            )[col]).len() == columns[col].len(),
        loop_around(rotated_times(columns, center, ccw, times), center).len() == total(columns),
        forall|slot: int|
            0 <= slot < total(columns) ==> #[trigger] loop_around(
                rotated_times(columns, center, ccw, times),
                center,
            )[slot] == loop_around(columns, center)[source_slot(
                total(columns) as int,
                slot,
                ccw,
                times as int,
            )],
    decreases times,
{
    let count = total(columns) as int;
    let slots = loop_around(columns, center);
    lemma_loop_around(columns, center);
    if times == 0 {
        assert forall|slot: int| 0 <= slot < count implies #[trigger] slots[slot]
            == slots[source_slot(count, slot, ccw, 0)] by {
            lemma_small_mod(slot as nat, count as nat);
        }
    } else {
        let before = rotated_times(columns, center, ccw, (times - 1) as nat);
        let after = rotated(before, center, ccw);
        lemma_rotated_times(columns, center, ccw, (times - 1) as nat);
        lemma_same_shape(before, columns, center);
        lemma_rotated_loop(before, center, ccw);
        assert forall|col: int| 0 <= col < columns.len() implies (#[trigger] after[col]).len()
            == columns[col].len() by {
            assert(before[col].len() == columns[col].len());
        }
        lemma_turned_back(loop_around(before, center), ccw);
        assert forall|slot: int| 0 <= slot < count implies #[trigger] loop_around(
            after,
            center,
        )[slot] == slots[source_slot(count, slot, ccw, times as int)] by {
            let from = source_slot(count, slot, ccw, 1);
            lemma_source_slot(count, slot, ccw, times as int);
            assert(loop_around(after, center)[slot] == loop_around(before, center)[from]);
        }
    }
}

/// The source of one rotation, and the source of several as that of one
/// fewer.
proof fn lemma_source_slot(count: int, slot: int, ccw: bool, times: int)
    requires
        0 <= slot < count,
    ensures
        source_slot(count, slot, ccw, 1) == if ccw {
            if slot + 1 < count {
                slot + 1
            } else {
                0
            }
        } else {
            if slot > 0 {
                slot - 1
            } else {
                count - 1
            }
        },
        source_slot(count, source_slot(count, slot, ccw, 1), ccw, times - 1) == source_slot(
            count,
            slot,
            ccw,
            times,
        ),
{
    let step: int = if ccw {
        1
    } else {
        -1
    };
    let on = slot + step;
    if 0 <= on < count {
        lemma_small_mod(on as nat, count as nat);
    } else if ccw {
        lemma_mod_self_0(count);
    } else {
        lemma_mod_add_multiples_vanish(on, count);
        lemma_small_mod((count - 1) as nat, count as nat);
    }
    if ccw {
        lemma_add_mod_noop_right(times - 1, on, count);
        assert((on % count) + (times - 1) == (times - 1) + (on % count));
    } else {
        lemma_add_mod_noop_right(1 - times, on, count);
        assert((on % count) - (times - 1) == (1 - times) + (on % count));
    }
}

/// As many rotations as there are windows restore the columns.
pub proof fn a_full_turn_restores<T>(columns: Seq<Seq<T>>, center: int, ccw: bool)
    requires
        0 <= center < columns.len(),
        total(columns) > 0,
    ensures
        rotated_times(columns, center, ccw, total(columns)) == columns,
{
    let count = total(columns);
    let after = rotated_times(columns, center, ccw, count);
    lemma_rotated_times(columns, center, ccw, count);
    lemma_loop_around(columns, center);
    let slots = loop_around(columns, center);
    assert forall|slot: int| 0 <= slot < count implies #[trigger] loop_around(after, center)[slot]
        == slots[slot] by {
        lemma_mod_add_multiples_vanish(slot, count as int);
        lemma_mod_sub_multiples_vanish(slot, count as int);
        lemma_small_mod(slot as nat, count);
    }
    assert(loop_around(after, center) =~= slots);
    lemma_same_loop(after, columns, center);
}

/// Fewer rotations than there are windows do not restore the columns.
pub proof fn no_shorter_turn_restores<T>(
    columns: Seq<Seq<T>>,
    center: int,
    ccw: bool,
    times: nat,
)
    requires
        0 <= center < columns.len(),
        flat(columns).no_duplicates(),
        0 < times < total(columns),
    ensures
        rotated_times(columns, center, ccw, times) != columns,
{
    let count = total(columns) as int;
    lemma_rotated_times(columns, center, ccw, times);
    lemma_distinct_loop(columns, center);
    let slots = loop_around(columns, center);
    let source = source_slot(count, 0, ccw, times as int);
    if ccw {
        lemma_small_mod(times, count as nat);
    } else {
        lemma_mod_add_multiples_vanish(-times, count);
        lemma_small_mod((count - times) as nat, count as nat);
    }
    assert(0 < source < count);
    assert(loop_around(rotated_times(columns, center, ccw, times), center)[0] == slots[source]);
}

/// A loop of distinct windows is as long as there are windows, and holds
/// each once.
pub proof fn lemma_distinct_loop<T>(columns: Seq<Seq<T>>, center: int)
    requires
        0 <= center <= columns.len(),
        flat(columns).no_duplicates(),
    ensures
        loop_around(columns, center).no_duplicates(),
        loop_around(columns, center).len() == total(columns),
{
    lemma_loop_around(columns, center);
    lemma_flat(columns);
    flat(columns).lemma_multiset_has_no_duplicates();
    loop_around(columns, center).lemma_multiset_has_no_duplicates_conv();
}

/// The number of rotations, from one to as many as there are slots, that
/// bring the window of slot `from` to slot `slot`.
pub open spec fn rotations_to(count: int, from: int, slot: int, ccw: bool) -> int {
    let ahead = if ccw {
        from - slot
    } else {
        slot - from
    };
    if ahead > 0 {
        ahead
    } else {
        ahead + count
    }
}

/// In a full turn each window comes to each slot exactly once.
pub proof fn a_full_turn_brings_each_window_once<T>(
    columns: Seq<Seq<T>>,
    center: int,
    ccw: bool,
    from: int,
    slot: int,
    times: int,
)
    requires
        0 <= center < columns.len(),
        flat(columns).no_duplicates(),
        0 <= from < total(columns),
        0 <= slot < total(columns),
        1 <= times <= total(columns),
    ensures
        1 <= rotations_to(total(columns) as int, from, slot, ccw) <= total(columns),
        loop_around(rotated_times(columns, center, ccw, times as nat), center)[slot] == loop_around(
            columns,
            center,
        )[from] <==> times == rotations_to(total(columns) as int, from, slot, ccw),
{
    let count = total(columns) as int;
    let slots = loop_around(columns, center);
    let source = source_slot(count, slot, ccw, times);
    lemma_rotated_times(columns, center, ccw, times as nat);
    lemma_distinct_loop(columns, center);
    if ccw {
        if slot + times < count {
            lemma_small_mod((slot + times) as nat, count as nat);
        } else {
            lemma_mod_sub_multiples_vanish(slot + times, count);
            lemma_small_mod((slot + times - count) as nat, count as nat);
        }
    } else {
        if slot - times >= 0 {
            lemma_small_mod((slot - times) as nat, count as nat);
        } else {
            lemma_mod_add_multiples_vanish(slot - times, count);
            lemma_small_mod((slot - times + count) as nat, count as nat);
        }
    }
    assert(0 <= source < count);
}

/// The windows column by column, each top to bottom.
pub fn flatten(columns: &Vec<Vec<ContainerId>>) -> (windows: Vec<ContainerId>)
    ensures
        windows@ == flat(cells(columns@)),
{
    let mut windows: Vec<ContainerId> = Vec::new();
    let mut col: usize = 0;
    assert(cells(columns@).take(0) =~= Seq::<Seq<ContainerId>>::empty());
    while col < columns.len()
        invariant
            col <= columns.len(),
            windows@ == flat(cells(columns@).take(col as int)),
        decreases columns.len() - col,
    {
        let mut row: usize = 0;
        let ghost before = windows@;
        let ghost column = columns@[col as int]@;
        while row < columns[col].len()
            invariant
                col < columns.len(),
                column == columns@[col as int]@,
                row <= column.len(),
                windows@ == before + column.take(row as int),
            decreases column.len() - row,
        {
            windows.push(columns[col][row]);
            assert(column.take(row + 1) =~= column.take(row as int).push(column[row as int]));
            row += 1;
        }
        proof {
            let longer = cells(columns@).take(col + 1);
            assert(longer.drop_last() =~= cells(columns@).take(col as int));
            assert(longer.last() == column);
            assert(column.take(row as int) =~= column);
        }
        col += 1;
    }
    assert(cells(columns@).take(col as int) =~= cells(columns@));
    windows
}

/// The columns with those left of column `center` upside down.
pub fn upend(columns: &Vec<Vec<ContainerId>>, center: usize) -> (over: Vec<Vec<ContainerId>>)
    ensures
        cells(over@) == upended(cells(columns@), center as int),
{
    let mut over: Vec<Vec<ContainerId>> = Vec::new();
    let mut col: usize = 0;
    let ghost all = upended(cells(columns@), center as int);
    while col < columns.len()
        invariant
            col <= columns.len(),
            over@.len() == col,
            all == upended(cells(columns@), center as int),
            forall|c: int| 0 <= c < col ==> (#[trigger] over@[c])@ == all[c],
        decreases columns.len() - col,
    {
        let len: usize = columns[col].len();
        let mut column: Vec<ContainerId> = Vec::new();
        let mut row: usize = 0;
        while row < len
            invariant
                col < columns.len(),
                row <= len,
                len == columns@[col as int]@.len(),
                all == upended(cells(columns@), center as int),
                column@ == all[col as int].take(row as int),
            decreases len - row,
        {
            let at: usize = if col < center {
                len - 1 - row
            } else {
                row
            };
            column.push(columns[col][at]);
            proof {
                let whole = all[col as int];
                assert(whole[row as int] == columns@[col as int]@[at as int]);
                assert(whole.take(row + 1) =~= whole.take(row as int).push(whole[row as int]));
            }
            row += 1;
        }
        assert(column@ =~= all[col as int]);
        over.push(column);
        col += 1;
    }
    assert(cells(over@) =~= all);
    over
}

/// The occupants of a loop's slots once every window has advanced by one
/// slot, or has gone back by one.
pub fn turn(slots: &Vec<ContainerId>, ccw: bool) -> (moved: Vec<ContainerId>)
    requires
        slots@.len() > 0,
    ensures
        moved@ == turned(slots@, ccw),
{
    let mut moved: Vec<ContainerId> = Vec::new();
    let mut i: usize = 0;
    while i < slots.len()
        invariant
            slots.len() > 0,
            i <= slots.len(),
            moved@ == turned(slots@, ccw).take(i as int),
        decreases slots.len() - i,
    {
        let at: usize = if ccw {
            if i + 1 < slots.len() {
                i + 1
            } else {
                0
            }
        } else {
            if i > 0 {
                i - 1
            } else {
                slots.len() - 1
            }
        };
        moved.push(slots[at]);
        proof {
            let all = turned(slots@, ccw);
            assert(all[i as int] == slots@[at as int]);
            assert(all.take(i + 1) =~= all.take(i as int).push(all[i as int]));
        }
        i += 1;
    }
    assert(turned(slots@, ccw).take(i as int) =~= turned(slots@, ccw));
    moved
}

/// The items by column, in columns of the lengths of `shape`.
pub fn reshape(items: &Vec<ContainerId>, shape: &Vec<Vec<ContainerId>>) -> (columns: Vec<
    Vec<ContainerId>,
>)
    requires
        items@.len() == total(cells(shape@)),
    ensures
        cells(columns@) == shaped(items@, cells(shape@)),
{
    let mut columns: Vec<Vec<ContainerId>> = Vec::new();
    let mut at: usize = 0;
    let mut col: usize = 0;
    let ghost model = cells(shape@);
    assert(model.take(0) =~= Seq::<Seq<ContainerId>>::empty());
    while col < shape.len()
        invariant
            col <= shape.len(),
            model == cells(shape@),
            items@.len() == total(model),
            at == left_of(model, col as int),
            cells(columns@) == shaped(items@, model).take(col as int),
        decreases shape.len() - col,
    {
        let len: usize = shape[col].len();
        let mut column: Vec<ContainerId> = Vec::new();
        let mut row: usize = 0;
        proof {
            assert(model[col as int] == shape@[col as int]@);
            lemma_left_of_grows(model, col as int);
        }
        while row < len
            invariant
                row <= len,
                at + len <= items.len(),
                column@ == items@.subrange(at as int, at + row),
            decreases len - row,
        {
            column.push(items[at + row]);
            assert(items@.subrange(at as int, at + row + 1) =~= items@.subrange(
                at as int,
                at + row,
            ).push(items@[at + row]));
            row += 1;
        }
        let ghost before = cells(columns@);
        columns.push(column);
        proof {
            let all = shaped(items@, model);
            assert(cells(columns@) =~= before.push(column@));
            assert(all[col as int] == column@);
            assert(all.take(col + 1) =~= all.take(col as int).push(all[col as int]));
        }
        at += len;
        col += 1;
    }
    assert(shaped(items@, model).take(col as int) =~= shaped(items@, model));
    columns
}

} // verus!
