//! Text handling: white space, splitting, lines and decimal numbers.

use vstd::prelude::*;
use vstd::string::StrSliceExecFns;
use vstd::string::StringExecFns;

verus! {

/// The characters with the Unicode property `White_Space`.
pub open spec fn white_space(c: char) -> bool {
    ||| '\u{9}' <= c <= '\u{d}'
    ||| c == ' '
    ||| c == '\u{85}'
    ||| c == '\u{a0}'
    ||| c == '\u{1680}'
    ||| '\u{2000}' <= c <= '\u{200a}'
    ||| c == '\u{2028}'
    ||| c == '\u{2029}'
    ||| c == '\u{202f}'
    ||| c == '\u{205f}'
    ||| c == '\u{3000}'
}

/// Whether `c` has the Unicode property `White_Space`.
pub fn is_white_space(c: char) -> (white: bool)
    ensures
        white == white_space(c),
{
    ('\u{9}' <= c && c <= '\u{d}') || c == ' ' || c == '\u{85}' || c == '\u{a0}' || c == '\u{1680}'
        || ('\u{2000}' <= c && c <= '\u{200a}') || c == '\u{2028}' || c == '\u{2029}' || c
        == '\u{202f}' || c == '\u{205f}' || c == '\u{3000}'
}

/// `text` without its leading white space.
pub open spec fn without_leading(text: Seq<char>) -> Seq<char>
    decreases text.len(),
{
    if text.len() > 0 && white_space(text.first()) {
        without_leading(text.drop_first())
    } else {
        text
    }
}

/// `text` without its trailing white space.
pub open spec fn without_trailing(text: Seq<char>) -> Seq<char>
    decreases text.len(),
{
    if text.len() > 0 && white_space(text.last()) {
        without_trailing(text.drop_last())
    } else {
        text
    }
}

/// `text` without the white space at either end.
pub open spec fn trimmed(text: Seq<char>) -> Seq<char> {
    without_trailing(without_leading(text))
}

/// The pieces of `text` between the occurrences of `separator`: one more
/// piece than there are separators, empty ones included.
pub open spec fn pieces(text: Seq<char>, separator: char) -> Seq<Seq<char>>
    decreases text.len(),
{
    if text.len() == 0 {
        seq![Seq::empty()]
    } else {
        let before = pieces(text.drop_last(), separator);
        if text.last() == separator {
            before.push(Seq::empty())
        } else {
            before.drop_last().push(before.last().push(text.last()))
        }
    }
}

/// The `parts` in order, with one `separator` between neighbours.
pub open spec fn joined(parts: Seq<Seq<char>>, separator: char) -> Seq<char>
    decreases parts.len(),
{
    if parts.len() == 0 {
        Seq::empty()
    } else if parts.len() == 1 {
        parts[0]
    } else {
        joined(parts.drop_last(), separator).push(separator) + parts.last()
    }
}

/// `line` without a carriage return at its end.
pub open spec fn without_return(line: Seq<char>) -> Seq<char> {
    if line.len() > 0 && line.last() == '\r' {
        line.drop_last()
    } else {
        line
    }
}

/// The lines of `text`. A line ends at a line feed, or at a carriage
/// return and a line feed. What follows the last line feed is a line too,
/// unless it is empty.
pub open spec fn lines_of(text: Seq<char>) -> Seq<Seq<char>> {
    let parts = pieces(text, '\n');
    let ended = parts.drop_last().map_values(|line: Seq<char>| without_return(line));
    if parts.last().len() > 0 {
        ended.push(parts.last())
    } else {
        ended
    }
}

/// Whether `c` is one of the ASCII digits.
pub open spec fn digit(c: char) -> bool {
    '0' <= c <= '9'
}

/// The number that `digits` writes in base ten.
pub open spec fn number_of(digits: Seq<char>) -> nat
    decreases digits.len(),
{
    if digits.len() == 0 {
        0
    } else {
        10 * number_of(digits.drop_last()) + (digits.last() as nat - '0' as nat) as nat
    }
}

/// Whether `text` is a non-empty run of ASCII digits.
pub open spec fn all_digits(text: Seq<char>) -> bool {
    text.len() > 0 && forall|i: int| 0 <= i < text.len() ==> digit(#[trigger] text[i])
}

/// The number that `text` writes: ASCII digits after at most one `+`.
pub open spec fn unsigned_of(text: Seq<char>) -> Option<int> {
    let digits = if text.len() > 0 && text[0] == '+' {
        text.drop_first()
    } else {
        text
    };
    if all_digits(digits) {
        Some(number_of(digits) as int)
    } else {
        None
    }
}

/// The number that `text` writes: ASCII digits after at most one `+` or
/// `-`.
pub open spec fn signed_of(text: Seq<char>) -> Option<int> {
    if text.len() > 0 && text[0] == '-' {
        if all_digits(text.drop_first()) {
            Some(-(number_of(text.drop_first()) as int))
        } else {
            None
        }
    } else {
        unsigned_of(text)
    }
}

/// The digit that stands for `n`, which is below ten.
pub open spec fn digit_for(n: nat) -> char {
    (('0' as nat) + n) as char
}

/// `n` in base ten, without leading zeros.
pub open spec fn decimal(n: nat) -> Seq<char>
    decreases n,
{
    if n < 10 {
        seq![digit_for(n)]
    } else {
        decimal(n / 10).push(digit_for(n % 10))
    }
}

/// `n` in base ten, with a leading `-` when it is negative.
pub open spec fn signed_decimal(n: int) -> Seq<char> {
    if n < 0 {
        seq!['-'] + decimal((-n) as nat)
    } else {
        decimal(n as nat)
    }
}

/// The characters of `text`, in order.
pub fn chars_of(text: &str) -> (chars: Vec<char>)
    ensures
        chars@ == text@,
{
    let mut chars: Vec<char> = Vec::new();
    for c in iter: text.chars()
        invariant
            chars@ == iter.seq().take(iter.index()),
            iter.seq() == text@,
    {
        chars.push(c);
    }
    assert(text@.take(text@.len() as int) =~= text@);
    chars
}

/// `text` without the white space at either end.
pub fn trim<'a>(text: &'a str) -> (rest: &'a str)
    ensures
        rest@ == trimmed(text@),
{
    let chars: Vec<char> = chars_of(text);
    let mut from: usize = 0;
    proof {
        assert(text@.skip(0) =~= text@);
    }
    while from < chars.len() && is_white_space(chars[from])
        invariant
            from <= chars.len(),
            chars@ == text@,
            without_leading(text@) == without_leading(text@.skip(from as int)),
        decreases chars.len() - from,
    {
        proof {
            assert(text@.skip(from as int).drop_first() =~= text@.skip(from + 1));
        }
        from += 1;
    }
    let ghost tail = text@.skip(from as int);
    assert(without_leading(text@) == tail);
    let mut to: usize = chars.len();
    assert(text@.subrange(from as int, to as int) =~= tail);
    while from < to && is_white_space(chars[to - 1])
        invariant
            from <= to <= chars.len(),
            chars@ == text@,
            without_trailing(tail) == without_trailing(text@.subrange(from as int, to as int)),
        decreases to,
    {
        proof {
            assert(text@.subrange(from as int, to as int).drop_last() =~= text@.subrange(
                from as int,
                to - 1,
            ));
        }
        to -= 1;
    }
    text.substring_char(from, to)
}

/// The pieces of `text` between the occurrences of `separator`.
pub fn split<'a>(text: &'a str, separator: char) -> (parts: Vec<&'a str>)
    ensures
        parts@.map_values(|part: &'a str| part@) == pieces(text@, separator),
        parts@.len() > 0,
{
    let chars: Vec<char> = chars_of(text);
    let mut parts: Vec<&'a str> = Vec::new();
    let mut from: usize = 0;
    let mut i: usize = 0;
    proof {
        assert(text@.take(0) =~= Seq::<char>::empty());
        assert(text@.subrange(0, 0) =~= Seq::<char>::empty());
        assert(pieces(text@.take(0), separator) =~= parts@.map_values(
            |part: &'a str| part@,
        ).push(text@.subrange(0, 0)));
    }
    while i < chars.len()
        invariant
            from <= i <= chars.len(),
            chars@ == text@,
            pieces(text@.take(i as int), separator) == parts@.map_values(
                |part: &'a str| part@,
            ).push(text@.subrange(from as int, i as int)),
        decreases chars.len() - i,
    {
        let ghost views = parts@.map_values(|part: &'a str| part@);
        proof {
            assert(text@.take(i + 1).drop_last() =~= text@.take(i as int));
            assert(views.push(text@.subrange(from as int, i as int)).drop_last() =~= views);
        }
        if chars[i] == separator {
            let part: &'a str = text.substring_char(from, i);
            parts.push(part);
            from = i + 1;
            proof {
                assert(text@.subrange(from as int, i + 1) =~= Seq::<char>::empty());
                assert(parts@.map_values(|part: &'a str| part@) =~= views.push(part@));
            }
        } else {
            proof {
                assert(text@.subrange(from as int, i + 1) =~= text@.subrange(
                    from as int,
                    i as int,
                ).push(text@[i as int]));
            }
        }
        i += 1;
    }
    let ghost views = parts@.map_values(|part: &'a str| part@);
    let last: &'a str = text.substring_char(from, i);
    parts.push(last);
    proof {
        assert(text@.take(i as int) =~= text@);
        assert(parts@.map_values(|part: &'a str| part@) =~= views.push(last@));
    }
    parts
}

/// The lines of `text`, without their line ends.
pub fn lines<'a>(text: &'a str) -> (all: Vec<&'a str>)
    ensures
        all@.map_values(|line: &'a str| line@) == lines_of(text@),
{
    let parts: Vec<&'a str> = split(text, '\n');
    let ghost views = parts@.map_values(|part: &'a str| part@);
    let ghost ended = views.drop_last().map_values(|line: Seq<char>| without_return(line));
    let mut all: Vec<&'a str> = Vec::new();
    let mut i: usize = 0;
    while i < parts.len() - 1
        invariant
            i <= parts.len() - 1,
            views == parts@.map_values(|part: &'a str| part@),
            ended == views.drop_last().map_values(|line: Seq<char>| without_return(line)),
            all@.map_values(|line: &'a str| line@) == ended.take(i as int),
        decreases parts.len() - i,
    {
        let part: &'a str = parts[i];
        let chars: Vec<char> = chars_of(part);
        let ghost before = all@.map_values(|line: &'a str| line@);
        assert(ended[i as int] == without_return(part@));
        if chars.len() > 0 && chars[chars.len() - 1] == '\r' {
            all.push(part.substring_char(0, chars.len() - 1));
            assert(all@.last()@ =~= part@.drop_last());
        } else {
            all.push(part);
        }
        proof {
            assert(all@.map_values(|line: &'a str| line@) =~= before.push(ended[i as int]));
            assert(ended.take(i + 1) =~= ended.take(i as int).push(ended[i as int]));
        }
        i += 1;
    }
    assert(ended.take(i as int) =~= ended);
    let last: &'a str = parts[parts.len() - 1];
    assert(last@ == views.last());
    if !last.is_empty() {
        all.push(last);
        assert(all@.map_values(|line: &'a str| line@) =~= ended.push(last@));
    }
    all
}

/// The number that the characters from `from` on write, when they are all
/// digits and the number fits.
fn magnitude(chars: &Vec<char>, from: usize) -> (value: Option<u64>)
    requires
        from <= chars@.len(),
    ensures
        ({
            let digits = chars@.skip(from as int);
            if all_digits(digits) && number_of(digits) <= u64::MAX {
                value == Some(number_of(digits) as u64)
            } else {
                value is None
            }
        }),
{
    let ghost digits = chars@.skip(from as int);
    if from == chars.len() {
        return None;
    }
    let mut value: u64 = 0;
    let mut i: usize = from;
    assert(digits.take(0) =~= Seq::<char>::empty());
    while i < chars.len()
        invariant
            from < chars.len(),
            from <= i <= chars.len(),
            digits == chars@.skip(from as int),
            forall|k: int| 0 <= k < i - from ==> digit(#[trigger] digits[k]),
            value == number_of(digits.take(i - from)),
        decreases chars.len() - i,
    {
        let c: char = chars[i];
        let ghost at = i - from;
        assert(digits[at] == c);
        if !('0' <= c && c <= '9') {
            assert(!digit(digits[at]));
            return None;
        }
        let next: u64 = (c as u64) - ('0' as u64);
        proof {
            assert(digits.take(at + 1).drop_last() =~= digits.take(at));
            lemma_number_of_grows(digits, at + 1);
        }
        if value > (u64::MAX - next) / 10 {
            proof {
                assert(10 * value + next > u64::MAX);
            }
            return None;
        }
        value = value * 10 + next;
        i += 1;
    }
    assert(digits.take(i - from) =~= digits);
    Some(value)
}

/// Reading further digits never makes a number smaller.
proof fn lemma_number_of_grows(digits: Seq<char>, at: int)
    requires
        0 <= at <= digits.len(),
    ensures
        number_of(digits.take(at)) <= number_of(digits),
    decreases digits.len() - at,
{
    if at < digits.len() {
        assert(digits.take(at + 1).drop_last() =~= digits.take(at));
        lemma_number_of_grows(digits, at + 1);
    } else {
        assert(digits.take(at) =~= digits);
    }
}

/// Reads `text` as an unsigned number.
pub fn parse_unsigned(text: &str) -> (value: Option<usize>)
    ensures
        match unsigned_of(text@) {
            Some(n) => if n <= usize::MAX {
                value == Some(n as usize)
            } else {
                value is None
            },
            None => value is None,
        },
{
    let chars: Vec<char> = chars_of(text);
    let signed: bool = chars.len() > 0 && chars[0] == '+';
    let from: usize = if signed {
        1
    } else {
        0
    };
    proof {
        assert(chars@.skip(0) =~= chars@);
        assert(signed ==> chars@.skip(1) =~= chars@.drop_first());
    }
    match magnitude(&chars, from) {
        Some(value) => if value <= usize::MAX as u64 {
            Some(value as usize)
        } else {
            None
        },
        None => None,
    }
}

/// Reads `text` as a signed number.
pub fn parse_signed(text: &str) -> (value: Option<isize>)
    ensures
        match signed_of(text@) {
            Some(n) => if isize::MIN <= n <= isize::MAX {
                value == Some(n as isize)
            } else {
                value is None
            },
            None => value is None,
        },
{
    let chars: Vec<char> = chars_of(text);
    let negative: bool = chars.len() > 0 && chars[0] == '-';
    let signed: bool = negative || (chars.len() > 0 && chars[0] == '+');
    let from: usize = if signed {
        1
    } else {
        0
    };
    proof {
        assert(chars@.skip(0) =~= chars@);
        assert(signed ==> chars@.skip(1) =~= chars@.drop_first());
    }
    match magnitude(&chars, from) {
        Some(value) => {
            let wide: i128 = if negative {
                -(value as i128)
            } else {
                value as i128
            };
            if isize::MIN as i128 <= wide && wide <= isize::MAX as i128 {
                Some(wide as isize)
            } else {
                None
            }
        },
        None => None,
    }
}

/// The digit for `n` as text.
fn digit_text(n: u8) -> (text: &'static str)
    requires
        n < 10,
    ensures
        text@ == seq![digit_for(n as nat)],
{
    proof {
        reveal_strlit("0");
        reveal_strlit("1");
        reveal_strlit("2");
        reveal_strlit("3");
        reveal_strlit("4");
        reveal_strlit("5");
        reveal_strlit("6");
        reveal_strlit("7");
        reveal_strlit("8");
        reveal_strlit("9");
    }
    match n {
        0 => "0",
        1 => "1",
        2 => "2",
        3 => "3",
        4 => "4",
        5 => "5",
        6 => "6",
        7 => "7",
        8 => "8",
        _ => "9",
    }
}

/// Writes `n` in base ten at the end of `text`.
fn push_decimal(text: &mut String, n: u64)
    ensures
        final(text)@ == old(text)@ + decimal(n as nat),
    decreases n,
{
    if n >= 10 {
        push_decimal(text, n / 10);
    }
    let low: u8 = (n % 10) as u8;
    text.append(digit_text(low));
    proof {
        assert(text@ =~= old(text)@ + decimal(n as nat));
    }
}

/// Writes `n` in base ten at the end of `text`.
pub fn push_signed(text: &mut String, n: isize)
    ensures
        final(text)@ == old(text)@ + signed_decimal(n as int),
{
    if n < 0 {
        proof {
            reveal_strlit("-");
        }
        text.append("-");
        let wide: i128 = -(n as i128);
        push_decimal(text, wide as u64);
        proof {
            assert(text@ =~= old(text)@ + signed_decimal(n as int));
        }
    } else {
        push_decimal(text, n as u64);
    }
}

/// Every digit of `decimal(n)` is a digit, and reading them gives `n` back.
pub proof fn lemma_decimal_reads_back(n: nat)
    ensures
        all_digits(decimal(n)),
        number_of(decimal(n)) == n,
    decreases n,
{
    if n < 10 {
        assert(decimal(n).drop_last() =~= Seq::<char>::empty());
        assert(number_of(decimal(n).drop_last()) == 0);
        assert(decimal(n).last() == digit_for(n));
    } else {
        lemma_decimal_reads_back(n / 10);
        let high = decimal(n / 10);
        assert(decimal(n) == high.push(digit_for(n % 10)));
        assert(decimal(n).drop_last() =~= high);
        assert forall|i: int| 0 <= i < decimal(n).len() implies digit(
            #[trigger] decimal(n)[i],
        ) by {
            if i < high.len() {
                assert(decimal(n)[i] == high[i]);
            }
        }
    }
}

/// A number written in base ten reads back as itself.
pub proof fn lemma_signed_decimal_reads_back(n: int)
    ensures
        signed_of(signed_decimal(n)) == Some(n),
        signed_decimal(n).len() > 0,
        forall|i: int| 0 <= i < signed_decimal(n).len() ==> ({
            let c = #[trigger] signed_decimal(n)[i];
            digit(c) || c == '-'
        }),
{
    let size = if n < 0 {
        (-n) as nat
    } else {
        n as nat
    };
    lemma_decimal_reads_back(size);
    if n < 0 {
        assert(signed_decimal(n).drop_first() =~= decimal(size));
        assert forall|i: int| 0 <= i < signed_decimal(n).len() implies ({
            let c = #[trigger] signed_decimal(n)[i];
            digit(c) || c == '-'
        }) by {
            if i > 0 {
                assert(signed_decimal(n)[i] == decimal(size)[i - 1]);
            }
        }
    } else {
        assert(digit(decimal(size)[0]));
    }
}

/// Text that starts and ends with something other than white space has
/// nothing to trim.
pub proof fn lemma_trimmed_is_identity(text: Seq<char>)
    requires
        text.len() > 0 ==> !white_space(text.first()) && !white_space(text.last()),
    ensures
        trimmed(text) == text,
{
}

/// Text without the separator is a single piece.
pub proof fn lemma_pieces_of_one(text: Seq<char>, separator: char)
    requires
        !text.contains(separator),
    ensures
        pieces(text, separator) == seq![text],
    decreases text.len(),
{
    if text.len() > 0 {
        let head = text.drop_last();
        assert forall|i: int| 0 <= i < head.len() implies head[i] != separator by {
            assert(text[i] == head[i]);
        }
        assert(text[text.len() - 1] == text.last());
        lemma_pieces_of_one(head, separator);
        assert(head.push(text.last()) =~= text);
        assert(pieces(text, separator) =~= seq![text]);
    } else {
        assert(text =~= Seq::<char>::empty());
    }
}

/// A separator and a piece behind it add that one piece.
pub proof fn lemma_pieces_of_push(text: Seq<char>, separator: char, piece: Seq<char>)
    requires
        !piece.contains(separator),
    ensures
        pieces(text.push(separator) + piece, separator) == pieces(text, separator).push(piece),
    decreases piece.len(),
{
    let all = text.push(separator) + piece;
    if piece.len() == 0 {
        assert(all =~= text.push(separator));
        assert(all.drop_last() =~= text);
        assert(piece =~= Seq::<char>::empty());
    } else {
        let head = piece.drop_last();
        assert forall|i: int| 0 <= i < head.len() implies head[i] != separator by {
            assert(piece[i] == head[i]);
        }
        assert(piece[piece.len() - 1] == piece.last());
        lemma_pieces_of_push(text, separator, head);
        assert(all.drop_last() =~= text.push(separator) + head);
        assert(all.last() == piece.last());
        assert(pieces(all, separator) =~= pieces(text, separator).push(head.push(piece.last())));
        assert(head.push(piece.last()) =~= piece);
    }
}

/// There is at least one piece, and no piece holds the separator.
pub proof fn lemma_pieces_hold_no_separator(text: Seq<char>, separator: char)
    ensures
        pieces(text, separator).len() > 0,
        forall|i: int|
            0 <= i < pieces(text, separator).len() ==> !(#[trigger] pieces(
                text,
                separator,
            )[i]).contains(separator),
    decreases text.len(),
{
    if text.len() > 0 {
        lemma_pieces_hold_no_separator(text.drop_last(), separator);
        let before = pieces(text.drop_last(), separator);
        let all = pieces(text, separator);
        assert forall|i: int| 0 <= i < all.len() implies !(#[trigger] all[i]).contains(
            separator,
        ) by {
            if i < before.len() - 1 {
                assert(all[i] == before[i]);
            } else if text.last() != separator {
                let grown = before.last().push(text.last());
                assert(all[i] == grown);
                assert forall|k: int| 0 <= k < grown.len() implies grown[k] != separator by {
                    if k < before.last().len() {
                        assert(grown[k] == before[before.len() - 1][k]);
                    }
                }
            } else if i < before.len() {
                assert(all[i] == before[i]);
            }
        }
    }
}

/// Joining pieces and splitting again gives the pieces back.
pub proof fn lemma_pieces_of_joined(parts: Seq<Seq<char>>, separator: char)
    requires
        parts.len() > 0,
        forall|i: int| 0 <= i < parts.len() ==> !(#[trigger] parts[i]).contains(separator),
    ensures
        pieces(joined(parts, separator), separator) == parts,
    decreases parts.len(),
{
    if parts.len() == 1 {
        lemma_pieces_of_one(parts[0], separator);
        assert(parts =~= seq![parts[0]]);
    } else {
        let head = parts.drop_last();
        assert forall|i: int| 0 <= i < head.len() implies !(#[trigger] head[i]).contains(
            separator,
        ) by {
            assert(parts[i] == head[i]);
        }
        lemma_pieces_of_joined(head, separator);
        assert(!parts[parts.len() - 1].contains(separator));
        lemma_pieces_of_push(joined(head, separator), separator, parts.last());
        assert(head.push(parts.last()) =~= parts);
    }
}

/// Splitting and joining again gives the text back.
pub proof fn lemma_joined_of_pieces(text: Seq<char>, separator: char)
    ensures
        joined(pieces(text, separator), separator) == text,
    decreases text.len(),
{
    let all = pieces(text, separator);
    lemma_pieces_hold_no_separator(text, separator);
    if text.len() > 0 {
        let before = pieces(text.drop_last(), separator);
        lemma_joined_of_pieces(text.drop_last(), separator);
        lemma_pieces_hold_no_separator(text.drop_last(), separator);
        if text.last() == separator {
            assert(all.drop_last() =~= before);
            assert(joined(all, separator) =~= text);
        } else {
            assert(all.drop_last() =~= before.drop_last());
            assert(all.last() == before.last().push(text.last()));
            assert(all.len() == before.len());
            assert(joined(all, separator) =~= joined(before, separator).push(text.last()));
            assert(joined(all, separator) =~= text);
        }
    } else {
        assert(joined(all, separator) =~= text);
    }
}

/// The pieces on both sides of a separator.
pub proof fn lemma_pieces_of_two(left: Seq<char>, right: Seq<char>, separator: char)
    ensures
        pieces(left.push(separator) + right, separator) == pieces(left, separator) + pieces(
            right,
            separator,
        ),
    decreases right.len(),
{
    let all = left.push(separator) + right;
    let a = pieces(left, separator);
    if right.len() == 0 {
        assert(all =~= left.push(separator));
        assert(all.drop_last() =~= left);
        assert(a.push(Seq::empty()) =~= a + pieces(right, separator));
    } else {
        let head = right.drop_last();
        lemma_pieces_of_two(left, head, separator);
        lemma_pieces_hold_no_separator(head, separator);
        assert(all.drop_last() =~= left.push(separator) + head);
        assert(all.last() == right.last());
        assert(pieces(all, separator) =~= a + pieces(right, separator));
    }
}

/// The lines on both sides of a line end are those of the text up to it and
/// those of the text behind it.
pub proof fn a_line_end_separates_lines(left: Seq<char>, right: Seq<char>)
    ensures
        lines_of(left.push('\n') + right) == lines_of(left.push('\n')) + lines_of(right),
{
    let a = pieces(left, '\n');
    let b = pieces(right, '\n');
    lemma_pieces_of_two(left, right, '\n');
    lemma_pieces_hold_no_separator(right, '\n');
    assert(left.push('\n').drop_last() =~= left);
    assert((a + b).drop_last() =~= a + b.drop_last());
    assert(pieces(left.push('\n'), '\n').drop_last() =~= a);
    assert(lines_of(left.push('\n') + right) =~= lines_of(left.push('\n')) + lines_of(right));
}

/// Text without a line end is one line, unless it is empty. With a line end
/// behind it, it is one line in any case, without a carriage return at its
/// end.
pub proof fn text_without_a_line_end_is_one_line(text: Seq<char>)
    requires
        !text.contains('\n'),
    ensures
        lines_of(text) == if text.len() > 0 {
            seq![text]
        } else {
            Seq::empty()
        },
        lines_of(text.push('\n')) == if text.len() > 0 && text.last() == '\r' {
            seq![text.drop_last()]
        } else {
            seq![text]
        },
{
    lemma_pieces_of_one(text, '\n');
    assert(lines_of(text) =~= if text.len() > 0 {
        seq![text]
    } else {
        Seq::empty()
    });
    assert(text.push('\n').drop_last() =~= text);
    assert(pieces(text.push('\n'), '\n') =~= seq![text, Seq::empty()]);
    assert(lines_of(text.push('\n')) =~= seq![without_return(text)]);
}

/// White space is what Unicode gives the property `White_Space`, by code.
pub proof fn white_space_has_these_codes(c: char)
    ensures
        white_space(c) <==> set![
            0x9u32, 0xa, 0xb, 0xc, 0xd, 0x20, 0x85, 0xa0, 0x1680, 0x2000, 0x2001, 0x2002, 0x2003,
            0x2004, 0x2005, 0x2006, 0x2007, 0x2008, 0x2009, 0x200a, 0x2028, 0x2029, 0x202f, 0x205f,
            0x3000,
        ].contains(c as u32),
{
}

/// A number is read digit by digit, behind at most one `+`: each digit adds
/// itself to ten times what stands before it, and text that is no number
/// does not become one, unless it was empty or a `+`.
pub proof fn a_number_is_read_digit_by_digit(text: Seq<char>, c: char)
    requires
        '0' <= c <= '9',
    ensures
        unsigned_of(seq![c]) == Some(c as int - '0' as int),
        unsigned_of(seq!['+', c]) == Some(c as int - '0' as int),
        text.len() > 0 && text != seq!['+'] ==> unsigned_of(text.push(c)) == match unsigned_of(
            text,
        ) {
            Some(n) => Some(10 * n + (c as int - '0' as int)),
            None => None,
        },
{
    let none = Seq::<char>::empty();
    assert(seq![c].drop_last() =~= none);
    assert(seq!['+', c].drop_first() =~= seq![c]);
    assert(number_of(seq![c]) == c as int - '0' as int) by {
        assert(number_of(none) == 0);
    }
    if text.len() > 0 && text != seq!['+'] {
        if text[0] == '+' {
            if text.len() == 1 {
                assert(text =~= seq!['+']);
            }
            assert(text.push(c).drop_first() =~= text.drop_first().push(c));
            lemma_digits_and_another(text.drop_first(), c);
        } else {
            lemma_digits_and_another(text, c);
        }
    }
}

/// Digits and another one are digits, and nothing else becomes digits.
proof fn lemma_digits_and_another(digits: Seq<char>, c: char)
    requires
        digits.len() > 0,
        digit(c),
    ensures
        all_digits(digits.push(c)) == all_digits(digits),
        number_of(digits.push(c)) == 10 * number_of(digits) + (c as nat - '0' as nat),
{
    let more = digits.push(c);
    assert(more.drop_last() =~= digits);
    if all_digits(more) {
        assert forall|i: int| 0 <= i < digits.len() implies digit(#[trigger] digits[i]) by {
            assert(digit(more[i]));
        }
    }
    if all_digits(digits) {
        assert forall|i: int| 0 <= i < more.len() implies digit(#[trigger] more[i]) by {
            if i < digits.len() {
                assert(digit(digits[i]));
            }
        }
    }
}

/// What ends in something other than a digit is no number, and neither is
/// empty text.
pub proof fn a_number_ends_in_a_digit(text: Seq<char>, c: char)
    requires
        !('0' <= c <= '9'),
    ensures
        unsigned_of(text.push(c)) is None,
        unsigned_of(Seq::empty()) is None,
{
    let all = text.push(c);
    let digits = if all[0] == '+' {
        all.drop_first()
    } else {
        all
    };
    if digits.len() > 0 {
        assert(digits[digits.len() - 1] == c);
    }
}

/// A `-` in front makes a number negative, unless a sign follows it. Without
/// one a signed number is read as an unsigned one.
pub proof fn a_minus_makes_a_number_negative(text: Seq<char>)
    ensures
        signed_of(seq!['-'] + text) == if text.len() > 0 && text[0] == '+' {
            None
        } else {
            match unsigned_of(text) {
                Some(n) => Some(-n),
                None => None,
            }
        },
        (text.len() > 0 ==> text[0] != '-') ==> signed_of(text) == unsigned_of(text),
{
    assert((seq!['-'] + text).drop_first() =~= text);
    if text.len() > 0 && text[0] == '+' {
        assert(!digit(text[0]));
    }
}

/// A number is written so that it reads back as itself, in digits that do
/// not start with a zero, unless it is zero, behind a `-` where it is
/// negative.
pub proof fn a_number_is_written_without_leading_zeros(n: int)
    ensures
        ({
            let text = signed_decimal(n);
            let digits = if n < 0 {
                text.skip(1)
            } else {
                text
            };
            &&& signed_of(text) == Some(n)
            &&& text.len() > 0 && (text[0] == '-' <==> n < 0)
            &&& digits.len() > 0 && '0' <= digits[0] <= '9'
            &&& digits[0] == '0' ==> n == 0 && digits.len() == 1
        }),
{
    lemma_signed_decimal_reads_back(n);
    let size = if n < 0 {
        (-n) as nat
    } else {
        n as nat
    };
    lemma_decimal_starts(size);
    if n < 0 {
        assert(signed_decimal(n).skip(1) =~= decimal(size));
    }
}

/// Decimal digits start with a zero for zero only.
proof fn lemma_decimal_starts(n: nat)
    ensures
        decimal(n).len() > 0,
        digit(decimal(n)[0]),
        decimal(n)[0] == '0' ==> n == 0 && decimal(n).len() == 1,
    decreases n,
{
    if n >= 10 {
        lemma_decimal_starts(n / 10);
        assert(decimal(n)[0] == decimal(n / 10)[0]);
    }
}

} // verus!
