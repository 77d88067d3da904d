//! What a column spec says, token by token.

use crate::columns::spec::{
    center_count, fault_message, parsed_spec, spec_tokens, token_kind, token_kinds, ColumnKind,
    SpecFault,
};
use crate::text::{
    all_digits, digit, lemma_pieces_of_one, lemma_pieces_of_two, pieces, trimmed, unsigned_of,
    white_space, without_leading, without_trailing,
};
use vstd::prelude::*;

verus! {

/// Whether a token asks for a column of this kind: `C` or `c` for the
/// center, `*` for a share of the leftovers, and a number for that many
/// windows.
pub open spec fn asks_for(token: Seq<char>, kind: ColumnKind) -> bool {
    match kind {
        ColumnKind::Center => token.len() == 1 && (token[0] == 'c' || token[0] == 'C'),
        ColumnKind::Star => token.len() == 1 && token[0] == '*',
        ColumnKind::Fixed(count) => unsigned_of(token) == Some(count as int) && count > 0,
    }
}

/// Whether a token asks for some column.
pub open spec fn asks(token: Seq<char>) -> bool {
    exists|kind: ColumnKind| #[trigger] asks_for(token, kind)
}

/// Whether exactly one of the columns is the center.
pub open spec fn one_center(kinds: Seq<ColumnKind>) -> bool {
    exists|center: int|
        0 <= center < kinds.len() && (#[trigger] kinds[center]) is Center && forall|col: int|
            0 <= col < kinds.len() && (#[trigger] kinds[col]) is Center ==> col == center
}

/// What a token is read as is what it asks for.
proof fn lemma_token_kind(token: Seq<char>, kind: ColumnKind)
    ensures
        token_kind(token) == Ok::<ColumnKind, SpecFault>(kind) <==> asks_for(token, kind),
        match token_kind(token) {
            Ok(kind) => asks_for(token, kind),
            Err(SpecFault::Token(fault)) => fault == token && !asks(token) && unsigned_of(token)
                != Some(0int),
            Err(SpecFault::ZeroCount) => unsigned_of(token) == Some(0int) && !asks(token),
            Err(SpecFault::CenterCount) => false,
        },
{
    if token.len() == 1 {
        assert(token =~= seq![token[0]]);
        assert(token.drop_last() =~= Seq::empty());
        if !digit(token[0]) {
            assert(!all_digits(token));
        }
    }
}

/// The columns that tokens ask for, or the first token that asks for none.
proof fn lemma_token_kinds(tokens: Seq<Seq<char>>)
    ensures
        match token_kinds(tokens) {
            Ok(kinds) => {
                &&& kinds.len() == tokens.len()
                &&& forall|i: int|
                    0 <= i < kinds.len() ==> asks_for(#[trigger] tokens[i], kinds[i])
            },
            Err(SpecFault::Token(fault)) => exists|i: int|
                0 <= i < tokens.len() && #[trigger] tokens[i] == fault && !asks(tokens[i])
                    && unsigned_of(tokens[i]) != Some(0int) && forall|k: int|
                    0 <= k < i ==> asks(#[trigger] tokens[k]),
            Err(SpecFault::ZeroCount) => exists|i: int|
                0 <= i < tokens.len() && unsigned_of(#[trigger] tokens[i]) == Some(0int) && !asks(
                    tokens[i],
                ) && forall|k: int| 0 <= k < i ==> asks(#[trigger] tokens[k]),
            Err(SpecFault::CenterCount) => false,
        },
    decreases tokens.len(),
{
    if tokens.len() > 0 {
        let head = tokens.drop_last();
        let last = tokens.len() - 1;
        lemma_token_kinds(head);
        lemma_token_kind(tokens[last], ColumnKind::Center);
        match token_kinds(head) {
            Ok(kinds) => {
                assert forall|k: int| 0 <= k < last implies asks(#[trigger] tokens[k]) by {
                    assert(head[k] == tokens[k]);
                    assert(asks_for(head[k], kinds[k]));
                }
                if let Ok(all) = token_kinds(tokens) {
                    assert forall|i: int| 0 <= i < all.len() implies asks_for(
                        #[trigger] tokens[i],
                        all[i],
                    ) by {
                        if i < last {
                            assert(head[i] == tokens[i]);
                        }
                    }
                }
            },
            Err(SpecFault::Token(fault)) => {
                let i = choose|i: int|
                    0 <= i < head.len() && #[trigger] head[i] == fault && !asks(head[i])
                        && unsigned_of(head[i]) != Some(0int) && forall|k: int|
                        0 <= k < i ==> asks(#[trigger] head[k]);
                assert(tokens[i] == fault);
                assert forall|k: int| 0 <= k < i implies asks(#[trigger] tokens[k]) by {
                    assert(head[k] == tokens[k]);
                }
            },
            Err(SpecFault::ZeroCount) => {
                let i = choose|i: int|
                    0 <= i < head.len() && unsigned_of(#[trigger] head[i]) == Some(0int) && !asks(
                        head[i],
                    ) && forall|k: int| 0 <= k < i ==> asks(#[trigger] head[k]);
                assert(unsigned_of(tokens[i]) == Some(0int));
                assert forall|k: int| 0 <= k < i implies asks(#[trigger] tokens[k]) by {
                    assert(head[k] == tokens[k]);
                }
            },
            Err(SpecFault::CenterCount) => {},
        }
    }
}

/// Counting one center is having exactly one.
proof fn lemma_one_center(kinds: Seq<ColumnKind>)
    ensures
        center_count(kinds) == 1 <==> one_center(kinds),
        center_count(kinds) == 0 <==> forall|col: int|
            0 <= col < kinds.len() ==> !((#[trigger] kinds[col]) is Center),
    decreases kinds.len(),
{
    if kinds.len() > 0 {
        let head = kinds.drop_last();
        let last = kinds.len() - 1;
        lemma_one_center(head);
        assert(forall|col: int| 0 <= col < last ==> #[trigger] kinds[col] == head[col]);
        if center_count(kinds) == 0 {
            assert forall|col: int| 0 <= col < kinds.len() implies !((#[trigger] kinds[col])
                is Center) by {
                if col < last {
                    assert(!(head[col] is Center));
                }
            }
        } else if forall|col: int|
            0 <= col < kinds.len() ==> !((#[trigger] kinds[col]) is Center) {
            assert(!(kinds[last] is Center));
            assert forall|col: int| 0 <= col < head.len() implies !((#[trigger] head[col])
                is Center) by {
                assert(!(kinds[col] is Center));
            }
        }
        if kinds[last] is Center {
            if center_count(head) == 0 {
                assert forall|col: int|
                    0 <= col < kinds.len() && (#[trigger] kinds[col]) is Center implies col
                    == last by {
                    if col < last {
                        assert(!(head[col] is Center));
                    }
                }
                assert(one_center(kinds));
            } else {
                let col = choose|col: int| 0 <= col < head.len() && (#[trigger] head[col]) is Center;
                assert(kinds[col] is Center);
                assert(!one_center(kinds));
            }
        } else {
            if one_center(head) {
                let center = choose|center: int|
                    0 <= center < head.len() && (#[trigger] head[center]) is Center && forall|
                        col: int,
                    |
                        0 <= col < head.len() && (#[trigger] head[col]) is Center ==> col
                            == center;
                assert(kinds[center] is Center);
                assert forall|col: int|
                    0 <= col < kinds.len() && (#[trigger] kinds[col]) is Center implies col
                    == center by {
                    assert(head[col] is Center);
                }
                assert(one_center(kinds));
            }
            if one_center(kinds) {
                let center = choose|center: int|
                    0 <= center < kinds.len() && (#[trigger] kinds[center]) is Center && forall|
                        col: int,
                    |
                        0 <= col < kinds.len() && (#[trigger] kinds[col]) is Center ==> col
                            == center;
                assert(head[center] is Center);
                assert forall|col: int|
                    0 <= col < head.len() && (#[trigger] head[col]) is Center implies col
                    == center by {
                    assert(kinds[col] is Center);
                }
                assert(one_center(head));
            }
        }
    }
}

/// A spec is read token by token: it describes a column for each token, of
/// the kind that the token asks for, and exactly one is the center. A spec
/// that is rejected names the first token that asks for no column, or says
/// that its number is zero, or, where every token asks for a column, that
/// not exactly one is the center.
pub proof fn a_spec_is_read_token_by_token(spec: Seq<char>)
    ensures
        ({
            let tokens = spec_tokens(spec);
            match parsed_spec(spec) {
                Ok(kinds) => {
                    &&& kinds.len() == tokens.len()
                    &&& forall|i: int|
                        0 <= i < kinds.len() ==> asks_for(#[trigger] tokens[i], kinds[i])
                    &&& one_center(kinds)
                },
                Err(SpecFault::Token(fault)) => exists|i: int|
                    0 <= i < tokens.len() && #[trigger] tokens[i] == fault && !asks(tokens[i])
                        && unsigned_of(tokens[i]) != Some(0int) && forall|k: int|
                        0 <= k < i ==> asks(#[trigger] tokens[k]),
                Err(SpecFault::ZeroCount) => exists|i: int|
                    0 <= i < tokens.len() && unsigned_of(#[trigger] tokens[i]) == Some(0int)
                        && !asks(tokens[i]) && forall|k: int|
                        0 <= k < i ==> asks(#[trigger] tokens[k]),
                Err(SpecFault::CenterCount) => exists|kinds: Seq<ColumnKind>|
                    {
                        &&& #[trigger] kinds.len() == tokens.len()
                        &&& forall|i: int|
                            0 <= i < kinds.len() ==> asks_for(#[trigger] tokens[i], kinds[i])
                        &&& !one_center(kinds)
                    },
            }
        }),
{
    let tokens = spec_tokens(spec);
    lemma_token_kinds(tokens);
    if let Ok(kinds) = token_kinds(tokens) {
        lemma_one_center(kinds);
        assert(kinds.len() == tokens.len());
    }
}

/// A comma separates the tokens left of it from those right of it.
pub proof fn a_comma_separates_tokens(left: Seq<char>, right: Seq<char>)
    ensures
        spec_tokens(left.push(',') + right) == spec_tokens(left) + spec_tokens(right),
{
    lemma_pieces_of_two(left, right, ',');
    let trim = |piece: Seq<char>| trimmed(piece);
    let some = |token: Seq<char>| token.len() > 0;
    let a = pieces(left, ',').map_values(trim);
    let b = pieces(right, ',').map_values(trim);
    assert((pieces(left, ',') + pieces(right, ',')).map_values(trim) =~= a + b);
    Seq::filter_distributes_over_add(a, b, some);
}

/// Text without a comma is one token, without the white space around it,
/// and none where it is white space alone.
pub proof fn text_without_a_comma_is_one_token(text: Seq<char>)
    requires
        !text.contains(','),
    ensures
        spec_tokens(text) == if trimmed(text).len() > 0 {
            seq![trimmed(text)]
        } else {
            Seq::empty()
        },
{
    lemma_pieces_of_one(text, ',');
    let all = pieces(text, ',').map_values(|piece: Seq<char>| trimmed(piece));
    let some = |token: Seq<char>| token.len() > 0;
    reveal(Seq::filter);
    assert(all =~= seq![trimmed(text)]);
    assert(all.drop_last() =~= Seq::<Seq<char>>::empty());
    assert(all.drop_last().filter(some) =~= Seq::<Seq<char>>::empty());
    assert(all.filter(some) =~= spec_tokens(text));
}

/// Trimming takes white space away from both ends, and all of it: what is
/// left is what stands between, and neither starts nor ends with white
/// space. The counts are those of the characters taken away.
pub proof fn trimming_takes_the_white_space_at_the_ends(text: Seq<char>) -> (taken: (int, int))
    ensures
        0 <= taken.0,
        0 <= taken.1,
        taken.0 + taken.1 + trimmed(text).len() == text.len(),
        trimmed(text) == text.subrange(taken.0, text.len() - taken.1),
        forall|i: int| 0 <= i < taken.0 ==> white_space(#[trigger] text[i]),
        forall|i: int| text.len() - taken.1 <= i < text.len() ==> white_space(#[trigger] text[i]),
        trimmed(text).len() > 0 ==> !white_space(trimmed(text).first()) && !white_space(
            trimmed(text).last(),
        ),
{
    let front = lemma_without_leading(text);
    let rest = without_leading(text);
    let back = lemma_without_trailing(rest);
    assert(trimmed(text) =~= text.subrange(front, text.len() - back));
    assert forall|i: int| text.len() - back <= i < text.len() implies white_space(
        #[trigger] text[i],
    ) by {
        assert(rest[i - front] == text[i]);
    }
    if trimmed(text).len() > 0 {
        assert(trimmed(text).first() == rest.first());
    }
    (front, back)
}

/// The white space taken away in front.
proof fn lemma_without_leading(text: Seq<char>) -> (taken: int)
    ensures
        0 <= taken <= text.len(),
        without_leading(text) == text.skip(taken),
        forall|i: int| 0 <= i < taken ==> white_space(#[trigger] text[i]),
        without_leading(text).len() > 0 ==> !white_space(without_leading(text).first()),
    decreases text.len(),
{
    if text.len() > 0 && white_space(text.first()) {
        let more = lemma_without_leading(text.drop_first());
        assert(text.drop_first().skip(more) =~= text.skip(more + 1));
        assert forall|i: int| 0 <= i < more + 1 implies white_space(#[trigger] text[i]) by {
            if i > 0 {
                assert(text.drop_first()[i - 1] == text[i]);
            }
        }
        more + 1
    } else {
        assert(text.skip(0) =~= text);
        0
    }
}

/// The white space taken away behind.
proof fn lemma_without_trailing(text: Seq<char>) -> (taken: int)
    ensures
        0 <= taken <= text.len(),
        without_trailing(text) == text.take(text.len() - taken),
        forall|i: int| text.len() - taken <= i < text.len() ==> white_space(#[trigger] text[i]),
        without_trailing(text).len() > 0 ==> !white_space(without_trailing(text).last()),
    decreases text.len(),
{
    if text.len() > 0 && white_space(text.last()) {
        let head = text.drop_last();
        let more = lemma_without_trailing(head);
        assert(head.take(head.len() - more) =~= text.take(text.len() - more - 1));
        assert forall|i: int| text.len() - more - 1 <= i < text.len() implies white_space(
            #[trigger] text[i],
        ) by {
            if i < head.len() {
                assert(head[i] == text[i]);
            }
        }
        more + 1
    } else {
        assert(text.take(text.len() as int) =~= text);
        0
    }
}

/// The message about a token that asks for no column quotes the token.
pub proof fn a_rejected_token_is_quoted(token: Seq<char>)
    ensures
        fault_message(SpecFault::Token(token)) == "Column `"@ + token
            + "` must be a number, `*`, or `C`."@,
        fault_message(SpecFault::ZeroCount) == "Column count must be at least 1."@,
        fault_message(SpecFault::CenterCount) == "Column spec must contain exactly one `C`."@,
{
}

} // verus!
