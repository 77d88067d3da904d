//! Parsing and window distribution for column specs.
//!
//! Pure layout rules with no dependency on the window tree.

use crate::columns::deal::{
    deal, deal_from, deal_reads_back, dealt, distributed, last_side, lemma_nth_open,
    lemma_open_before_grows, open_before, open_count, readable, takes,
};
use crate::columns::grid::{cells, ColumnWidth};
use crate::columns::reading::{depth, other_than, reading_order, row_upto, rows_upto};
use crate::state::Fraction;
use crate::text::{chars_of, parse_unsigned, pieces, split, trim, trimmed, unsigned_of};
use vstd::prelude::*;
use vstd::string::StringExecFns;

verus! {

/// One column in a column spec.
#[derive(Debug, Clone, Copy, PartialEq, Eq, Structural)]
pub enum ColumnKind {
    /// The wide center column holding the master window.
    Center,
    /// A stack of exactly this many windows.
    Fixed(usize),
    /// A stack sharing the windows left over after the fixed columns take
    /// theirs.
    Star,
}

/// Why a column spec was rejected.
#[derive(Debug, PartialEq, Eq)]
pub enum SpecError {
    /// A token that is neither a number, nor `*`, nor `C`.
    Token(String),
    /// A fixed count of zero.
    ZeroCount,
    /// Not exactly one `C`.
    CenterCount,
}

/// What a [`SpecError`] says, with the token as its characters.
pub enum SpecFault {
    /// See [`SpecError::Token`].
    Token(Seq<char>),
    /// See [`SpecError::ZeroCount`].
    ZeroCount,
    /// See [`SpecError::CenterCount`].
    CenterCount,
}

impl View for SpecError {
    type V = SpecFault;

    open spec fn view(&self) -> SpecFault {
        match self {
            SpecError::Token(token) => SpecFault::Token(token@),
            SpecError::ZeroCount => SpecFault::ZeroCount,
            SpecError::CenterCount => SpecFault::CenterCount,
        }
    }
}

/// The message of a fault.
pub open spec fn fault_message(fault: SpecFault) -> Seq<char> {
    match fault {
        SpecFault::Token(token) => "Column `"@ + token + "` must be a number, `*`, or `C`."@,
        SpecFault::ZeroCount => "Column count must be at least 1."@,
        SpecFault::CenterCount => "Column spec must contain exactly one `C`."@,
    }
}

impl SpecError {
    /// The message to be shown.
    pub fn message(&self) -> (message: String)
        ensures
            message@ == fault_message(self@),
    {
        match self {
            SpecError::Token(token) => {
                let mut message: String = "Column `".to_owned();
                message.append(token.as_str());
                message.append("` must be a number, `*`, or `C`.");
                message
            },
            SpecError::ZeroCount => "Column count must be at least 1.".to_owned(),
            SpecError::CenterCount => "Column spec must contain exactly one `C`.".to_owned(),
        }
    }
}

/// The tokens of a column spec: what stands between the commas, trimmed,
/// without the empty ones.
pub open spec fn spec_tokens(spec: Seq<char>) -> Seq<Seq<char>> {
    pieces(spec, ',').map_values(|piece: Seq<char>| trimmed(piece)).filter(
        |token: Seq<char>| token.len() > 0,
    )
}

/// The column that `token` asks for.
pub open spec fn token_kind(token: Seq<char>) -> Result<ColumnKind, SpecFault> {
    if token == seq!['c'] || token == seq!['C'] {
        Ok(ColumnKind::Center)
    } else if token == seq!['*'] {
        Ok(ColumnKind::Star)
    } else {
        match unsigned_of(token) {
            Some(count) => if count > usize::MAX {
                Err(SpecFault::Token(token))
            } else if count == 0 {
                Err(SpecFault::ZeroCount)
            } else {
                Ok(ColumnKind::Fixed(count as usize))
            },
            None => Err(SpecFault::Token(token)),
        }
    }
}

/// The columns that `tokens` ask for, or what is wrong with the first of
/// them that asks for none.
pub open spec fn token_kinds(tokens: Seq<Seq<char>>) -> Result<Seq<ColumnKind>, SpecFault>
    decreases tokens.len(),
{
    if tokens.len() == 0 {
        Ok(Seq::empty())
    } else {
        match token_kinds(tokens.drop_last()) {
            Err(fault) => Err(fault),
            Ok(kinds) => match token_kind(tokens.last()) {
                Err(fault) => Err(fault),
                Ok(kind) => Ok(kinds.push(kind)),
            },
        }
    }
}

/// How many of the columns are the center.
pub open spec fn center_count(kinds: Seq<ColumnKind>) -> nat
    decreases kinds.len(),
{
    if kinds.len() == 0 {
        0
    } else {
        center_count(kinds.drop_last()) + if kinds.last() is Center {
            1nat
        } else {
            0
        }
    }
}

/// The columns that a spec describes, left to right.
pub open spec fn parsed_spec(spec: Seq<char>) -> Result<Seq<ColumnKind>, SpecFault> {
    match token_kinds(spec_tokens(spec)) {
        Err(fault) => Err(fault),
        Ok(kinds) => if center_count(kinds) == 1 {
            Ok(kinds)
        } else {
            Err(SpecFault::CenterCount)
        },
    }
}

/// A fault in an earlier token is the fault of the whole list.
pub proof fn lemma_first_fault(tokens: Seq<Seq<char>>, at: int)
    requires
        0 <= at <= tokens.len(),
        token_kinds(tokens.take(at)) is Err,
    ensures
        token_kinds(tokens) == token_kinds(tokens.take(at)),
    decreases tokens.len() - at,
{
    if at < tokens.len() {
        assert(tokens.take(at + 1).drop_last() =~= tokens.take(at));
        lemma_first_fault(tokens, at + 1);
    } else {
        assert(tokens.take(at) =~= tokens);
    }
}

/// Reads one token of a spec.
fn parse_token(token: &str) -> (kind: Result<ColumnKind, SpecError>)
    ensures
        match kind {
            Ok(kind) => token_kind(token@) == Ok::<ColumnKind, SpecFault>(kind),
            Err(error) => token_kind(token@) == Err::<ColumnKind, SpecFault>(error@),
        },
{
    let chars: Vec<char> = chars_of(token);
    if chars.len() == 1 && (chars[0] == 'c' || chars[0] == 'C') {
        assert(token@ =~= seq!['c'] || token@ =~= seq!['C']);
        return Ok(ColumnKind::Center);
    }
    if chars.len() == 1 && chars[0] == '*' {
        assert(token@ =~= seq!['*']);
        return Ok(ColumnKind::Star);
    }
    match parse_unsigned(token) {
        Some(count) => if count == 0 {
            Err(SpecError::ZeroCount)
        } else {
            Ok(ColumnKind::Fixed(count))
        },
        None => Err(SpecError::Token(token.to_owned())),
    }
}

/// Parses a comma-separated column `spec` into an ordered list of column
/// kinds, left to right. A number token is that many stacked windows, `*`
/// is a leftover-sharing stack, and `C` is the wide center.
///
/// Errors on an unrecognised token, a zero fixed count, or a spec that
/// does not contain exactly one `C`.
pub fn parse_columns_spec(spec: &str) -> (kinds: Result<Vec<ColumnKind>, SpecError>)
    ensures
        match kinds {
            Ok(kinds) => parsed_spec(spec@) == Ok::<Seq<ColumnKind>, SpecFault>(kinds@),
            Err(error) => parsed_spec(spec@) == Err::<Seq<ColumnKind>, SpecFault>(error@),
        },
{
    let parts: Vec<&str> = split(spec, ',');
    let ghost trims = pieces(spec@, ',').map_values(|piece: Seq<char>| trimmed(piece));
    let ghost keep = |token: Seq<char>| token.len() > 0;
    let mut kinds: Vec<ColumnKind> = Vec::new();
    let mut centers: usize = 0;
    let mut i: usize = 0;
    proof {
        assert(trims.take(0).filter(keep) =~= Seq::<Seq<char>>::empty()) by {
            reveal(Seq::filter);
        }
    }
    while i < parts.len()
        invariant
            i <= parts.len(),
            parts@.map_values(|part: &str| part@) == pieces(spec@, ','),
            trims == pieces(spec@, ',').map_values(|piece: Seq<char>| trimmed(piece)),
            keep == (|token: Seq<char>| token.len() > 0),
            token_kinds(trims.take(i as int).filter(keep)) == Ok::<Seq<ColumnKind>, SpecFault>(
                kinds@,
            ),
            centers == center_count(kinds@),
            centers <= i,
        decreases parts.len() - i,
    {
        let token: &str = trim(parts[i]);
        proof {
            assert(parts@.map_values(|part: &str| part@)[i as int] == parts@[i as int]@);
            assert(trims[i as int] == token@);
            assert(trims.take(i + 1) =~= trims.take(i as int).push(token@));
            trims.take(i as int).lemma_filter_push(token@, keep);
        }
        if !token.is_empty() {
            let ghost before = trims.take(i as int).filter(keep);
            let ghost after = trims.take(i + 1).filter(keep);
            assert(after == before.push(token@));
            assert(after.drop_last() =~= before);
            match parse_token(token) {
                Ok(kind) => {
                    let ghost earlier = kinds@;
                    kinds.push(kind);
                    assert(kinds@.drop_last() =~= earlier);
                    match kind {
                        ColumnKind::Center => {
                            centers += 1;
                        },
                        _ => {},
                    }
                },
                Err(error) => {
                    proof {
                        let tokens = trims.filter(keep);
                        lemma_filter_of_take(trims, keep, i + 1);
                        lemma_first_fault(tokens, after.len() as int);
                    }
                    return Err(error);
                },
            }
        }
        i += 1;
    }
    assert(trims.take(i as int) =~= trims);
    if centers != 1 {
        return Err(SpecError::CenterCount);
    }
    Ok(kinds)
}

/// Filtering the head of a sequence gives the head of what filtering the
/// whole gives.
proof fn lemma_filter_of_take<A>(items: Seq<A>, keep: spec_fn(A) -> bool, at: int)
    requires
        0 <= at <= items.len(),
    ensures
        items.take(at).filter(keep).len() <= items.filter(keep).len(),
        items.filter(keep).take(items.take(at).filter(keep).len() as int) == items.take(at).filter(
            keep,
        ),
{
    let head = items.take(at);
    let tail = items.skip(at);
    assert(items =~= head + tail);
    Seq::filter_distributes_over_add(head, tail, keep);
    assert((head.filter(keep) + tail.filter(keep)).take(head.filter(keep).len() as int)
        =~= head.filter(keep));
}

/// Whether a column of this kind takes a window in this row of the deal.
fn takes_window(kind: ColumnKind, row: usize) -> (open: bool)
    ensures
        open == takes(kind, row as nat),
{
    match kind {
        ColumnKind::Center => false,
        ColumnKind::Fixed(count) => row < count,
        ColumnKind::Star => true,
    }
}

/// The last column that is not the center.
fn last_side_column(kinds: &[ColumnKind]) -> (last: Option<usize>)
    ensures
        match last {
            Some(last) => last == last_side(kinds@) && last < kinds@.len() && !(kinds@[last as int] is Center),
            None => last_side(kinds@) == -1,
        },
{
    let mut i: usize = kinds.len();
    assert(kinds@.take(i as int) =~= kinds@);
    while i > 0
        invariant
            i <= kinds.len(),
            last_side(kinds@) == last_side(kinds@.take(i as int)),
        decreases i,
    {
        assert(kinds@.take(i as int).drop_last() =~= kinds@.take(i - 1));
        match kinds[i - 1] {
            ColumnKind::Center => {},
            _ => {
                return Some(i - 1);
            },
        }
        i -= 1;
    }
    None
}

/// The `items` from last to first.
fn reversed<T>(items: Vec<T>) -> (back: Vec<T>)
    ensures
        back@ == items@.reverse(),
{
    let ghost all = items@;
    let mut items: Vec<T> = items;
    let mut back: Vec<T> = Vec::new();
    while items.len() > 0
        invariant
            back@.len() + items@.len() == all.len(),
            items@ == all.take(items@.len() as int),
            back@ == all.skip(items@.len() as int).reverse(),
        decreases items@.len(),
    {
        if let Some(item) = items.pop() {
            back.push(item);
        }
    }
    back
}

/// Whether `columns` are what `center` and `rest` are distributed into: each
/// `C` column holds a clone of the center, and the other columns hold the
/// windows dealt to them.
pub open spec fn distributes<T: Clone>(
    kinds: Seq<ColumnKind>,
    center: T,
    rest: Seq<T>,
    columns: Seq<Seq<T>>,
) -> bool {
    &&& columns.len() == kinds.len()
    &&& forall|col: int|
        0 <= col < kinds.len() && kinds[col] is Center ==> (#[trigger] columns[col]).len() == 1
            && cloned(center, columns[col][0])
    &&& forall|col: int|
        0 <= col < kinds.len() && !(kinds[col] is Center) ==> #[trigger] columns[col] == dealt(
            kinds,
            rest,
            col,
        )
}

/// Whether `windows` are clones of those of the `columns`, in reading
/// order.
pub open spec fn reads_as<T: Clone>(columns: Seq<Seq<T>>, windows: Seq<T>) -> bool {
    &&& windows.len() == reading_order(columns).len()
    &&& forall|i: int|
        0 <= i < windows.len() ==> cloned(reading_order(columns)[i], #[trigger] windows[i])
}

/// Whether a clone of an item is always equal to it.
pub open spec fn clones_are_equal<T: Clone>() -> bool {
    forall|item: T, clone: T| #[trigger] cloned(item, clone) ==> item == clone
}

/// Where clones are equal, the columns are the distribution.
pub proof fn lemma_distributed<T: Clone>(
    kinds: Seq<ColumnKind>,
    center: T,
    rest: Seq<T>,
    columns: Seq<Seq<T>>,
)
    requires
        clones_are_equal::<T>(),
        distributes(kinds, center, rest, columns),
    ensures
        columns == distributed(kinds, center, rest),
{
    let expected = distributed(kinds, center, rest);
    assert forall|col: int| 0 <= col < kinds.len() implies #[trigger] columns[col]
        == expected[col] by {
        if kinds[col] is Center {
            assert(columns[col] =~= seq![center]);
        }
    }
    assert(columns =~= expected);
}

/// Reading a distribution row by row gives back, beside the center, the
/// windows that were dealt, in the order in which they were dealt: what
/// [`row_major`] makes of what [`distribute_columns`] makes of them.
pub proof fn row_major_inverts_the_deal<T: Clone>(
    kinds: Seq<ColumnKind>,
    center: T,
    rest: Seq<T>,
    columns: Seq<Seq<T>>,
    windows: Seq<T>,
)
    requires
        clones_are_equal::<T>(),
        readable(kinds, rest.len()),
        !rest.contains(center),
        distributes(kinds, center, rest, columns),
        reads_as(columns, windows),
    ensures
        windows.filter(other_than(center)) == rest,
{
    lemma_distributed(kinds, center, rest, columns);
    deal_reads_back(kinds, center, rest);
    assert forall|i: int| 0 <= i < windows.len() implies #[trigger] windows[i] == reading_order(
        columns,
    )[i] by {
        assert(cloned(reading_order(columns)[i], windows[i]));
    }
    assert(windows =~= reading_order(columns));
}

/// Distributes `center` and the `rest` of the windows into columns per
/// the parsed `kinds`.
///
/// `center` fills the `C` column. The `rest` are dealt one per column
/// across the non-center columns left to right, then a second row, and so
/// on: a fixed column drops out of the deal once it holds its count, a
/// `*` column never does. So `2,C,*` with five leftovers fills as
/// `[1,3] C [2,4,5]`.
///
/// Any windows still unplaced (every column is a fixed one and the counts
/// under-specify the total) are appended to the last non-center column,
/// so nothing is dropped. With the center as the only column, only
/// `center` is placed.
pub fn distribute_columns<T: Clone>(kinds: &[ColumnKind], center: T, rest: Vec<T>) -> (columns: Vec<
    Vec<T>,
>)
    ensures
        distributes(kinds@, center, rest@, cells(columns@)),
{
    let mut columns: Vec<Vec<T>> = Vec::new();
    let mut i: usize = 0;
    while i < kinds.len()
        invariant
            i <= kinds.len(),
            columns@.len() == i,
            forall|col: int|
                0 <= col < i && kinds@[col] is Center ==> (#[trigger] columns@[col])@.len() == 1
                    && cloned(center, columns@[col]@[0]),
            forall|col: int|
                0 <= col < i && !(kinds@[col] is Center) ==> (#[trigger] columns@[col])@.len() == 0,
        decreases kinds.len() - i,
    {
        let mut column: Vec<T> = Vec::new();
        match kinds[i] {
            ColumnKind::Center => {
                column.push(center.clone());
            },
            _ => {},
        }
        columns.push(column);
        i += 1;
    }

    let last: usize = match last_side_column(kinds) {
        Some(last) => last,
        None => {
            proof {
                lemma_no_side(kinds@);
                lemma_distributes(kinds@, center, rest@, columns@);
            }
            return columns;
        },
    };

    // Deal row by row, skipping any fixed column that is already full.
    let ghost all = rest@;
    assert(all.len() == rest.len());
    let mut source: Vec<T> = reversed(rest);
    let mut row: usize = 0;
    let mut done: bool = false;
    let ghost mut count: int = 0;
    proof {
        assert(all.skip(0) =~= all);
        assert(all.take(0) =~= Seq::<T>::empty());
        assert(row_starts(kinds@, 0, 0, all.len() as int)) by {
            reveal(row_starts);
        }
    }
    while !done
        invariant
            columns@.len() == kinds@.len(),
            0 <= count <= all.len(),
            all.len() <= usize::MAX,
            row <= count,
            last == last_side(kinds@),
            last < kinds@.len(),
            !(kinds@[last as int] is Center),
            source@ == all.skip(count).reverse(),
            done ==> count == all.len() || open_count(kinds@, row as nat) == 0,
            row_starts(kinds@, row as nat, count, all.len() as int),
            forall|col: int|
                0 <= col < kinds@.len() && kinds@[col] is Center ==> (#[trigger] columns@[col])@.len()
                    == 1 && cloned(center, columns@[col]@[0]),
            forall|col: int|
                0 <= col < kinds@.len() && !(kinds@[col] is Center) ==> (#[trigger] columns@[col])@
                    == dealt(kinds@, all.take(count), col),
        decreases all.len() - count, (if done { 0int } else { 1 }),
    {
        let mut placed: bool = false;
        let mut col: usize = 0;
        let ghost before = count;
        while col < kinds.len() && !done
            invariant
                columns@.len() == kinds@.len(),
                0 <= before <= count <= all.len(),
                col <= kinds@.len(),
                last == last_side(kinds@),
                source@ == all.skip(count).reverse(),
                done ==> count == all.len(),
                !done ==> count == before + open_before(kinds@, row as nat, col as int),
                placed == (count > before),
                row_starts(kinds@, row as nat, before, all.len() as int),
                forall|col: int|
                    0 <= col < kinds@.len() && kinds@[col] is Center ==> (#[trigger] columns@[col])@.len()
                        == 1 && cloned(center, columns@[col]@[0]),
                forall|col: int|
                    0 <= col < kinds@.len() && !(kinds@[col] is Center) ==> (
                    #[trigger] columns@[col])@ == dealt(kinds@, all.take(count), col),
            decreases kinds.len() - col, (if done { 0int } else { 1 }),
        {
            if takes_window(kinds[col], row) {
                match source.pop() {
                    Some(window) => {
                        let ghost old_columns = columns@;
                        proof {
                            lemma_nth_open(kinds@, row as nat, 0, col as int);
                            lemma_open_before_grows(
                                kinds@,
                                row as nat,
                                col + 1,
                                kinds@.len() as int,
                            );
                            assert(deal_from(kinds@, row as nat, (count - before) as nat) == col);
                            assert(deal(kinds@, count as nat) == col) by {
                                reveal(row_starts);
                            }
                            assert(all.take(count + 1).drop_last() =~= all.take(count));
                            assert(all.skip(count).reverse().drop_last() =~= all.skip(count + 1).reverse());
                            assert(window == all[count]);
                        }
                        columns[col].push(window);
                        placed = true;
                        proof {
                            count = count + 1;
                            assert forall|c: int|
                                0 <= c < kinds@.len() && !(kinds@[c] is Center) implies (
                            #[trigger] columns@[c])@ == dealt(kinds@, all.take(count), c) by {
                                assert(old_columns[c]@ == dealt(kinds@, all.take(count - 1), c));
                            }
                            assert forall|c: int|
                                0 <= c < kinds@.len() && kinds@[c] is Center implies (
                            #[trigger] columns@[c])@.len() == 1 && cloned(
                                center,
                                columns@[c]@[0],
                            ) by {
                                assert(old_columns[c] == columns@[c]);
                            }
                        }
                        col += 1;
                    },
                    None => {
                        done = true;
                    },
                }
            } else {
                col += 1;
            }
        }
        if !done {
            if placed {
                proof {
                    lemma_next_row(kinds@, row as nat, before, count, all.len() as int);
                }
                row += 1;
            } else {
                done = true;
            }
        } else {
            assert(row_starts(kinds@, row as nat, count, all.len() as int)) by {
                reveal(row_starts);
            }
        }
    }

    // Every column is a full fixed column but windows remain: keep them
    // rather than dropping them off-screen.
    proof {
        assert forall|x: int| count <= x < all.len() implies #[trigger] deal(kinds@, x as nat)
            == last by {
            reveal(row_starts);
            assert(deal_from(kinds@, row as nat, (x - count) as nat) == deal(kinds@, x as nat));
        }
    }
    let mut unplaced: bool = true;
    while unplaced
        invariant
            columns@.len() == kinds@.len(),
            0 <= count <= all.len(),
            last == last_side(kinds@),
            last < kinds@.len(),
            !(kinds@[last as int] is Center),
            source@ == all.skip(count).reverse(),
            !unplaced ==> count == all.len(),
            forall|x: int|
                count <= x < all.len() ==> #[trigger] deal(kinds@, x as nat) == last,
            forall|col: int|
                0 <= col < kinds@.len() && kinds@[col] is Center ==> (#[trigger] columns@[col])@.len()
                    == 1 && cloned(center, columns@[col]@[0]),
            forall|col: int|
                0 <= col < kinds@.len() && !(kinds@[col] is Center) ==> (#[trigger] columns@[col])@
                    == dealt(kinds@, all.take(count), col),
        decreases all.len() - count, (if unplaced { 1int } else { 0 }),
    {
        match source.pop() {
            Some(window) => {
                let ghost old_columns = columns@;
                proof {
                    assert(deal(kinds@, count as nat) == last);
                    assert(all.take(count + 1).drop_last() =~= all.take(count));
                    assert(all.skip(count).reverse().drop_last() =~= all.skip(count + 1).reverse());
                    assert(window == all[count]);
                }
                columns[last].push(window);
                proof {
                    count = count + 1;
                    assert forall|c: int|
                        0 <= c < kinds@.len() && !(kinds@[c] is Center) implies (
                    #[trigger] columns@[c])@ == dealt(kinds@, all.take(count), c) by {
                        assert(old_columns[c]@ == dealt(kinds@, all.take(count - 1), c));
                    }
                    assert forall|c: int|
                        0 <= c < kinds@.len() && kinds@[c] is Center implies (
                    #[trigger] columns@[c])@.len() == 1 && cloned(center, columns@[c]@[0]) by {
                        assert(old_columns[c] == columns@[c]);
                    }
                }
            },
            None => {
                unplaced = false;
            },
        }
    }
    proof {
        assert(all.take(count) =~= all);
        lemma_distributes(kinds@, center, all, columns@);
    }
    columns
}

/// The columns of a distribution, one by one.
proof fn lemma_distributes<T: Clone>(
    kinds: Seq<ColumnKind>,
    center: T,
    rest: Seq<T>,
    columns: Seq<Vec<T>>,
)
    requires
        columns.len() == kinds.len(),
        forall|col: int|
            0 <= col < kinds.len() && kinds[col] is Center ==> (#[trigger] columns[col])@.len()
                == 1 && cloned(center, columns[col]@[0]),
        forall|col: int|
            0 <= col < kinds.len() && !(kinds[col] is Center) ==> (#[trigger] columns[col])@
                == dealt(kinds, rest, col),
    ensures
        distributes(kinds, center, rest, cells(columns)),
{
    assert forall|col: int| 0 <= col < kinds.len() && kinds[col] is Center implies (
    #[trigger] cells(columns)[col]).len() == 1 && cloned(center, cells(columns)[col][0]) by {
        assert(cells(columns)[col] == columns[col]@);
    }
    assert forall|col: int| 0 <= col < kinds.len() && !(kinds[col] is Center) implies
        #[trigger] cells(columns)[col] == dealt(kinds, rest, col) by {
        assert(cells(columns)[col] == columns[col]@);
    }
}

/// Whether row `row` of the deal starts with window `start`, as far as
/// there are windows.
#[verifier::opaque]
spec fn row_starts(kinds: Seq<ColumnKind>, row: nat, start: int, end: int) -> bool {
    forall|x: nat|
        start + x < end ==> #[trigger] deal_from(kinds, row, x) == deal(kinds, (start + x) as nat)
}

/// Once the row that starts with window `before` is dealt, the next one
/// starts with window `count`.
proof fn lemma_next_row(kinds: Seq<ColumnKind>, row: nat, before: int, count: int, end: int)
    requires
        0 <= before < count,
        count == before + open_count(kinds, row),
        row_starts(kinds, row, before, end),
    ensures
        row_starts(kinds, row + 1, count, end),
{
    reveal(row_starts);
    let open = open_count(kinds, row);
    assert forall|x: nat| count + x < end implies #[trigger] deal_from(kinds, row + 1, x) == deal(
        kinds,
        (count + x) as nat,
    ) by {
        assert(deal_from(kinds, row, open + x) == deal(kinds, (before + (open + x)) as nat));
    }
}

/// With no column beside the center, every column is the center.
proof fn lemma_no_side(kinds: Seq<ColumnKind>)
    requires
        last_side(kinds) == -1,
    ensures
        forall|col: int| 0 <= col < kinds.len() ==> #[trigger] kinds[col] is Center,
    decreases kinds.len(),
{
    if kinds.len() > 0 {
        lemma_no_side(kinds.drop_last());
        assert forall|col: int| 0 <= col < kinds.len() implies #[trigger] kinds[col] is Center by {
            if col < kinds.len() - 1 {
                assert(kinds.drop_last()[col] == kinds[col]);
            }
        }
    }
}

/// The number of windows in the longest column.
fn depth_of<T>(columns: &[Vec<T>]) -> (deepest: usize)
    ensures
        deepest == depth(cells(columns@)),
{
    let mut deepest: usize = 0;
    let mut i: usize = 0;
    assert(cells(columns@).take(0) =~= Seq::<Seq<T>>::empty());
    while i < columns.len()
        invariant
            i <= columns.len(),
            deepest == depth(cells(columns@).take(i as int)),
        decreases columns.len() - i,
    {
        assert(cells(columns@).take(i + 1).drop_last() =~= cells(columns@).take(i as int));
        assert(cells(columns@)[i as int] == columns@[i as int]@);
        if columns[i].len() > deepest {
            deepest = columns[i].len();
        }
        i += 1;
    }
    assert(cells(columns@).take(i as int) =~= cells(columns@));
    deepest
}

/// The windows of a distributed grid in the order [`distribute_columns`]
/// dealt them: row-major, left to right.
///
/// The inverse of [`distribute_columns`], and the order the container
/// tree is read back in.
pub fn row_major<T: Clone>(columns: &[Vec<T>]) -> (windows: Vec<T>)
    ensures
        reads_as(cells(columns@), windows@),
{
    let ghost grid = cells(columns@);
    let deepest: usize = depth_of(columns);
    let mut windows: Vec<T> = Vec::new();
    let mut row: usize = 0;
    while row < deepest
        invariant
            row <= deepest,
            grid == cells(columns@),
            windows@.len() == rows_upto(grid, row as int).len(),
            forall|i: int|
                0 <= i < windows@.len() ==> cloned(
                    rows_upto(grid, row as int)[i],
                    #[trigger] windows@[i],
                ),
        decreases deepest - row,
    {
        let mut col: usize = 0;
        let ghost above = rows_upto(grid, row as int);
        assert(above + row_upto(grid, row as int, 0) =~= above);
        while col < columns.len()
            invariant
                col <= columns.len(),
                grid == cells(columns@),
                windows@.len() == (above + row_upto(grid, row as int, col as int)).len(),
                forall|i: int|
                    0 <= i < windows@.len() ==> cloned(
                        (above + row_upto(grid, row as int, col as int))[i],
                        #[trigger] windows@[i],
                    ),
            decreases columns.len() - col,
        {
            assert(grid[col as int] == columns@[col as int]@);
            if row < columns[col].len() {
                let ghost before = above + row_upto(grid, row as int, col as int);
                let ghost had = windows@;
                windows.push(columns[col][row].clone());
                proof {
                    let after = above + row_upto(grid, row as int, col + 1);
                    assert(after =~= before.push(grid[col as int][row as int]));
                    assert forall|i: int| 0 <= i < windows@.len() implies cloned(
                        after[i],
                        #[trigger] windows@[i],
                    ) by {
                        if i < had.len() {
                            assert(windows@[i] == had[i]);
                        }
                    }
                }
            }
            col += 1;
        }
        row += 1;
    }
    windows
}

/// The width of each column of a spec with this center width.
pub open spec fn template_widths(kinds: Seq<ColumnKind>, center: Fraction) -> Seq<ColumnWidth> {
    kinds.map_values(
        |kind: ColumnKind|
            if kind is Center {
                ColumnWidth::Center(center)
            } else {
                ColumnWidth::Side { center, sharing: (kinds.len() - 1) as usize }
            },
    )
}

/// The width of each column: the center takes `center` and the remaining
/// width is divided evenly across the non-center columns.
pub fn column_widths(kinds: &[ColumnKind], center: Fraction) -> (widths: Vec<ColumnWidth>)
    ensures
        widths@ == template_widths(kinds@, center),
{
    let mut widths: Vec<ColumnWidth> = Vec::new();
    let mut i: usize = 0;
    while i < kinds.len()
        invariant
            i <= kinds.len(),
            widths@ == template_widths(kinds@, center).take(i as int),
        decreases kinds.len() - i,
    {
        let width: ColumnWidth = match kinds[i] {
            ColumnKind::Center => ColumnWidth::Center(center),
            _ => ColumnWidth::Side { center, sharing: kinds.len() - 1 },
        };
        widths.push(width);
        proof {
            assert(template_widths(kinds@, center).take(i + 1) =~= template_widths(
                kinds@,
                center,
            ).take(i as int).push(width));
        }
        i += 1;
    }
    assert(template_widths(kinds@, center).take(i as int) =~= template_widths(kinds@, center));
    widths
}

} // verus!
