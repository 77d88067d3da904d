//! What holds of a mirrored column spec.

use crate::columns::reversed_spec;
use crate::columns::spec::{
    center_count, parsed_spec, spec_tokens, token_kind, token_kinds, ColumnKind, SpecFault,
};
use crate::text::{
    lemma_joined_of_pieces, lemma_pieces_hold_no_separator, lemma_pieces_of_joined,
    lemma_pieces_of_one, lemma_pieces_of_two, pieces, trimmed,
};
use vstd::prelude::*;

verus! {

/// The pieces of a mirrored spec are those of the spec, from last to first.
proof fn lemma_mirrored_pieces(spec: Seq<char>)
    ensures
        pieces(reversed_spec(spec), ',') == pieces(spec, ',').reverse(),
{
    let back = pieces(spec, ',').reverse();
    lemma_pieces_hold_no_separator(spec, ',');
    assert forall|i: int| 0 <= i < back.len() implies !(#[trigger] back[i]).contains(',') by {
        assert(back[i] == pieces(spec, ',')[back.len() - 1 - i]);
    }
    lemma_pieces_of_joined(back, ',');
}

/// Mirroring a spec exchanges the mirrored sides of each of its commas, and
/// leaves text without a comma as it is.
pub proof fn mirroring_exchanges_the_sides_of_a_comma(left: Seq<char>, right: Seq<char>)
    ensures
        reversed_spec(left.push(',') + right) == reversed_spec(right).push(',') + reversed_spec(
            left,
        ),
        !left.contains(',') ==> reversed_spec(left) == left,
{
    let spec = left.push(',') + right;
    let exchanged = reversed_spec(right).push(',') + reversed_spec(left);
    lemma_pieces_of_two(left, right, ',');
    lemma_pieces_of_two(reversed_spec(right), reversed_spec(left), ',');
    lemma_mirrored_pieces(left);
    lemma_mirrored_pieces(right);
    lemma_mirrored_pieces(spec);
    assert(pieces(reversed_spec(spec), ',') =~= pieces(exchanged, ','));
    lemma_joined_of_pieces(reversed_spec(spec), ',');
    lemma_joined_of_pieces(exchanged, ',');
    if !left.contains(',') {
        lemma_pieces_of_one(left, ',');
        assert(pieces(left, ',').reverse() =~= pieces(left, ','));
        lemma_joined_of_pieces(left, ',');
    }
}

/// Mirroring a spec twice gives the spec back.
pub proof fn mirroring_twice_restores(spec: Seq<char>)
    ensures
        reversed_spec(reversed_spec(spec)) == spec,
{
    lemma_mirrored_pieces(spec);
    lemma_joined_of_pieces(spec, ',');
    assert(pieces(spec, ',').reverse().reverse() =~= pieces(spec, ','));
}

/// A symmetric spec is its own mirror image.
pub proof fn a_symmetric_spec_stays(spec: Seq<char>)
    requires
        pieces(spec, ',').reverse() == pieces(spec, ','),
    ensures
        reversed_spec(spec) == spec,
{
    lemma_joined_of_pieces(spec, ',');
}

/// Filtering commutes with reversing.
proof fn lemma_filter_of_reverse<A>(items: Seq<A>, keep: spec_fn(A) -> bool)
    ensures
        items.reverse().filter(keep) == items.filter(keep).reverse(),
    decreases items.len(),
{
    reveal(Seq::filter);
    if items.len() > 0 {
        let head = items.drop_last();
        let last = seq![items.last()];
        lemma_filter_of_reverse(head, keep);
        assert(items.reverse() =~= last + head.reverse());
        Seq::filter_distributes_over_add(last, head.reverse(), keep);
        assert(last.drop_last() =~= Seq::<A>::empty());
        assert(last.drop_last().filter(keep) =~= Seq::<A>::empty());
        assert(last.filter(keep) =~= if keep(items.last()) {
            last
        } else {
            Seq::empty()
        });
        assert(items.reverse().filter(keep) =~= items.filter(keep).reverse());
    } else {
        assert(items.reverse() =~= items);
        assert(items.reverse().filter(keep) =~= items.filter(keep).reverse());
    }
}

/// The tokens of a mirrored spec are those of the spec, from last to first.
proof fn lemma_mirrored_tokens(spec: Seq<char>)
    ensures
        spec_tokens(reversed_spec(spec)) == spec_tokens(spec).reverse(),
{
    lemma_mirrored_pieces(spec);
    let all = pieces(spec, ',').map_values(|piece: Seq<char>| trimmed(piece));
    assert(pieces(reversed_spec(spec), ',').map_values(|piece: Seq<char>| trimmed(piece))
        =~= all.reverse());
    lemma_filter_of_reverse(all, |token: Seq<char>| token.len() > 0);
}

/// Tokens that all ask for a column ask for those columns.
proof fn lemma_kinds_of_tokens(tokens: Seq<Seq<char>>, kinds: Seq<ColumnKind>)
    ensures
        token_kinds(tokens) == Ok::<Seq<ColumnKind>, SpecFault>(kinds) <==> {
            &&& tokens.len() == kinds.len()
            &&& forall|i: int|
                0 <= i < kinds.len() ==> token_kind(#[trigger] tokens[i]) == Ok::<
                    ColumnKind,
                    SpecFault,
                >(kinds[i])
        },
    decreases tokens.len(),
{
    if tokens.len() == 0 {
        assert(token_kinds(tokens) == Ok::<Seq<ColumnKind>, SpecFault>(Seq::empty()));
        assert(kinds.len() == 0 ==> kinds =~= Seq::empty());
    } else {
        let head = tokens.drop_last();
        let last = tokens[tokens.len() - 1];
        if token_kinds(tokens) == Ok::<Seq<ColumnKind>, SpecFault>(kinds) {
            let first = token_kinds(head)->Ok_0;
            lemma_kinds_of_tokens(head, first);
            assert(kinds == first.push(token_kind(last)->Ok_0));
            assert forall|i: int| 0 <= i < kinds.len() implies token_kind(#[trigger] tokens[i])
                == Ok::<ColumnKind, SpecFault>(kinds[i]) by {
                if i < head.len() {
                    assert(head[i] == tokens[i]);
                    assert(kinds[i] == first[i]);
                }
            }
        }
        if tokens.len() == kinds.len() && (forall|i: int|
            0 <= i < kinds.len() ==> token_kind(#[trigger] tokens[i]) == Ok::<
                ColumnKind,
                SpecFault,
            >(kinds[i])) {
            let first = kinds.drop_last();
            assert forall|i: int| 0 <= i < first.len() implies token_kind(#[trigger] head[i])
                == Ok::<ColumnKind, SpecFault>(first[i]) by {
                assert(token_kind(tokens[i]) == Ok::<ColumnKind, SpecFault>(kinds[i]));
            }
            lemma_kinds_of_tokens(head, first);
            assert(token_kind(last) == Ok::<ColumnKind, SpecFault>(kinds[tokens.len() - 1]));
            assert(first.push(kinds.last()) =~= kinds);
        }
    }
}

/// Columns from right to left have as many centers.
proof fn lemma_centers_of_reverse(kinds: Seq<ColumnKind>)
    ensures
        center_count(kinds.reverse()) == center_count(kinds),
    decreases kinds.len(),
{
    if kinds.len() > 0 {
        let head = kinds.drop_last();
        lemma_centers_of_reverse(head);
        lemma_centers_of_front(kinds.last(), head.reverse());
        assert(kinds.reverse() =~= seq![kinds.last()] + head.reverse());
    } else {
        assert(kinds.reverse() =~= kinds);
    }
}

/// A column in front adds itself.
proof fn lemma_centers_of_front(first: ColumnKind, kinds: Seq<ColumnKind>)
    ensures
        center_count(seq![first] + kinds) == center_count(kinds) + if first is Center {
            1nat
        } else {
            0
        },
    decreases kinds.len(),
{
    let all = seq![first] + kinds;
    if kinds.len() > 0 {
        lemma_centers_of_front(first, kinds.drop_last());
        assert(all.drop_last() =~= seq![first] + kinds.drop_last());
    } else {
        assert(all.drop_last() =~= kinds);
    }
}

/// A mirrored spec describes the columns of the spec from right to left.
pub proof fn a_mirrored_spec_has_its_columns_reversed(spec: Seq<char>)
    ensures
        parsed_spec(spec) matches Ok(kinds) ==> parsed_spec(reversed_spec(spec)) == Ok::<
            Seq<ColumnKind>,
            SpecFault,
        >(kinds.reverse()),
        parsed_spec(spec) is Err ==> parsed_spec(reversed_spec(spec)) is Err,
{
    lemma_mirrored_one_way(spec);
    lemma_mirrored_one_way(reversed_spec(spec));
    mirroring_twice_restores(spec);
}

/// Where a spec is accepted, its mirror image is, with the columns from
/// right to left.
proof fn lemma_mirrored_one_way(spec: Seq<char>)
    ensures
        parsed_spec(spec) matches Ok(kinds) ==> parsed_spec(reversed_spec(spec)) == Ok::<
            Seq<ColumnKind>,
            SpecFault,
        >(kinds.reverse()),
{
    if let Ok(kinds) = parsed_spec(spec) {
        let tokens = spec_tokens(spec);
        let back = kinds.reverse();
        lemma_mirrored_tokens(spec);
        lemma_kinds_of_tokens(tokens, kinds);
        assert forall|i: int| 0 <= i < back.len() implies token_kind(
            #[trigger] tokens.reverse()[i],
        ) == Ok::<ColumnKind, SpecFault>(back[i]) by {
            let at = kinds.len() - 1 - i;
            assert(token_kind(tokens[at]) == Ok::<ColumnKind, SpecFault>(kinds[at]));
        }
        lemma_kinds_of_tokens(tokens.reverse(), back);
        lemma_centers_of_reverse(kinds);
    }
}

} // verus!
