//! What holds of the texts that are built and taken apart, said of their characters.
use crate::ident::{hex_digit, hyphenated, hyphens_before, nibble};
use crate::text::{
    decimal, joined, lemma_first_of_at, lines_of, padded, replaced_from, replaced_once,
    signed_decimal, stands_at, trimmed, trimmed_end, trimmed_start, white_space, without_return,
};
use vstd::prelude::*;

verus! {

/// The number that a text of decimal digits stands for.
pub open spec fn number_in(text: Seq<char>) -> int
    decreases text.len(),
{
    if text.len() == 0 {
        0
    } else {
        10 * number_in(text.drop_last()) + (text.last() as u32 - 48)
    }
}

/// The decimal form of a number consists of digits, stands for the number, and
/// does not begin with a zero unless it is one.
pub proof fn law_decimal_stands_for_its_number(n: nat)
    ensures
        number_in(decimal(n)) == n,
        decimal(n).len() > 0,
        forall|i: int|
            0 <= i < decimal(n).len() ==> 48 <= (#[trigger] decimal(n)[i]) as u32 <= 57,
        n > 0 ==> decimal(n)[0] as u32 > 48,
        n < 10 ==> decimal(n).len() == 1,
    decreases n,
{
    reveal_with_fuel(number_in, 2);
    if n >= 10 {
        law_decimal_stands_for_its_number(n / 10);
        let front = decimal(n / 10);
        assert(decimal(n).drop_last() =~= front);
        assert(decimal(n)[0] == front[0]);
        assert forall|i: int| 0 <= i < decimal(n).len() implies 48 <= (#[trigger] decimal(
            n,
        )[i]) as u32 <= 57 by {
            if i < front.len() {
                assert(decimal(n)[i] == front[i]);
            }
        }
    } else {
        assert(decimal(n).drop_last() =~= Seq::<char>::empty());
    }
}

/// Different numbers have different decimal forms.
pub proof fn law_decimals_differ(a: nat, b: nat)
    requires
        decimal(a) == decimal(b),
    ensures
        a == b,
{
    law_decimal_stands_for_its_number(a);
    law_decimal_stands_for_its_number(b);
}

/// A number below zero has a minus sign before the digits of its amount; any other
/// has none.
pub proof fn law_sign_stands_in_front(n: int)
    ensures
        n >= 0 ==> number_in(signed_decimal(n)) == n && signed_decimal(n)[0] != '-',
        n < 0 ==> signed_decimal(n)[0] == '-' && number_in(signed_decimal(n).drop_first()) == -n
            && signed_decimal(n).drop_first()[0] != '-',
{
    if n >= 0 {
        law_decimal_stands_for_its_number(n as nat);
        assert(48 <= decimal(n as nat)[0] as u32);
    } else {
        law_decimal_stands_for_its_number((-n) as nat);
        assert(signed_decimal(n).drop_first() =~= decimal((-n) as nat));
        assert(48 <= decimal((-n) as nat)[0] as u32);
    }
}

/// Joining one text gives the text, joining none gives nothing, and joining two
/// lists gives both with the separator between them.
pub proof fn law_joined_lists_are_joined(
    a: Seq<Seq<char>>,
    b: Seq<Seq<char>>,
    text: Seq<char>,
    separator: Seq<char>,
)
    ensures
        joined(seq![text], separator) == text,
        joined(Seq::empty(), separator) == Seq::<char>::empty(),
        a.len() > 0 && b.len() > 0 ==> joined(a + b, separator) == joined(a, separator) + separator
            + joined(b, separator),
    decreases b.len(),
{
    if a.len() > 0 && b.len() > 0 {
        let front = b.drop_last();
        assert((a + b).drop_last() =~= a + front);
        if b.len() == 1 {
            assert(a + front =~= a);
        } else {
            law_joined_lists_are_joined(a, front, text, separator);
            assert(joined(a + b, separator) =~= joined(a, separator) + separator + joined(
                b,
                separator,
            ));
        }
    }
}

/// A padded text begins with the text, goes on with blanks only, and is as long as
/// asked for or as the text, whichever is longer.
pub proof fn law_padding_is_blank(text: Seq<char>, width: nat)
    ensures
        padded(text, width).len() == (if width > text.len() {
            width
        } else {
            text.len()
        }),
        padded(text, width).take(text.len() as int) == text,
        forall|i: int|
            text.len() <= i < padded(text, width).len() ==> #[trigger] padded(text, width)[i]
                == ' ',
{
    assert(padded(text, width).take(text.len() as int) =~= text);
}

/// Without the white space at its start a text is what stands behind it.
proof fn lemma_trimmed_start(text: Seq<char>) -> (n: int)
    ensures
        0 <= n <= text.len(),
        trimmed_start(text) == text.skip(n),
        forall|i: int| 0 <= i < n ==> white_space(#[trigger] text[i]),
        n < text.len() ==> !white_space(text[n]),
    decreases text.len(),
{
    if text.len() > 0 && white_space(text[0]) {
        let rest = text.drop_first();
        let m = lemma_trimmed_start(rest);
        assert(rest.skip(m) =~= text.skip(m + 1));
        assert forall|i: int| 0 <= i < m + 1 implies white_space(#[trigger] text[i]) by {
            if i > 0 {
                assert(rest[i - 1] == text[i]);
            }
        }
        if m + 1 < text.len() {
            assert(rest[m] == text[m + 1]);
        }
        m + 1
    } else {
        assert(text.skip(0) =~= text);
        0
    }
}

/// Without the white space at its end a text is what stands before it.
proof fn lemma_trimmed_end(text: Seq<char>) -> (n: int)
    ensures
        0 <= n <= text.len(),
        trimmed_end(text) == text.take(n),
        forall|i: int| n <= i < text.len() ==> white_space(#[trigger] text[i]),
        n > 0 ==> !white_space(text[n - 1]),
    decreases text.len(),
{
    if text.len() > 0 && white_space(text.last()) {
        let rest = text.drop_last();
        let m = lemma_trimmed_end(rest);
        assert(rest.take(m) =~= text.take(m));
        assert forall|i: int| m <= i < text.len() implies white_space(#[trigger] text[i]) by {
            if i < rest.len() {
                assert(rest[i] == text[i]);
            }
        }
        if m > 0 {
            assert(rest[m - 1] == text[m - 1]);
        }
        m
    } else {
        assert(text.take(text.len() as int) =~= text);
        text.len() as int
    }
}

/// A trimmed text is a stretch of the text; all that was cut off at either side is
/// white space, and the stretch neither begins nor ends with any.
pub proof fn law_trimming_cuts_white_space_only(text: Seq<char>) -> (r: (int, int))
    ensures
        0 <= r.0 <= r.1 <= text.len(),
        trimmed(text) == text.subrange(r.0, r.1),
        forall|i: int| 0 <= i < r.0 ==> white_space(#[trigger] text[i]),
        forall|i: int| r.1 <= i < text.len() ==> white_space(#[trigger] text[i]),
        r.0 < r.1 ==> !white_space(text[r.0]) && !white_space(text[r.1 - 1]),
{
    let a = lemma_trimmed_start(text);
    let rest = text.skip(a);
    let n = lemma_trimmed_end(rest);
    assert(rest.take(n) =~= text.subrange(a, a + n));
    assert forall|i: int| a + n <= i < text.len() implies white_space(#[trigger] text[i]) by {
        assert(rest[i - a] == text[i]);
    }
    if n > 0 {
        assert(rest[n - 1] == text[a + n - 1]);
    }
    (a, a + n)
}

/// A text without a line feed is one line, an empty text none. A line before a
/// line feed stands before the lines of the rest, without a carriage return at its
/// end.
pub proof fn law_lines_are_split_at_line_feeds(line: Seq<char>, rest: Seq<char>)
    requires
        forall|i: int| 0 <= i < line.len() ==> #[trigger] line[i] != '\n',
    ensures
        lines_of(Seq::empty()) == Seq::<Seq<char>>::empty(),
        line.len() > 0 ==> lines_of(line) == seq![line],
        lines_of(line + seq!['\n'] + rest) == seq![
            if line.len() > 0 && line[line.len() - 1] == '\r' {
                line.take(line.len() - 1)
            } else {
                line
            },
        ] + lines_of(rest),
{
    let text = line + seq!['\n'] + rest;
    let n = line.len() as int;
    lemma_first_of_at(line, '\n', n);
    assert(text[n] == '\n');
    assert forall|i: int| 0 <= i < n implies text[i] != '\n' by {
        assert(text[i] == line[i]);
    }
    lemma_first_of_at(text, '\n', n);
    assert(text.take(n) =~= line);
    assert(text.skip(n + 1) =~= rest);
    assert(without_return(line) =~= (if line.len() > 0 && line[line.len() - 1] == '\r' {
        line.take(line.len() - 1)
    } else {
        line
    }));
}

/// Where the place before the first occurrence is left behind, the replacing goes
/// on behind it.
proof fn lemma_replaced_from(
    text: Seq<char>,
    pattern: Seq<char>,
    by: Seq<char>,
    from: int,
    at: int,
)
    requires
        0 <= from <= at <= text.len(),
        forall|i: int|
            from <= i < at ==> !#[trigger] stands_at(text, pattern, i),
        at + pattern.len() <= text.len(),
    ensures
        replaced_from(text, pattern, by, from) == replaced_from(text, pattern, by, at),
    decreases at - from,
{
    if from < at {
        assert(!stands_at(text, pattern, from));
        lemma_replaced_from(text, pattern, by, from + 1, at);
    }
}

/// Where a pattern stands nowhere, nothing is replaced.
proof fn lemma_nothing_replaced(text: Seq<char>, pattern: Seq<char>, by: Seq<char>, from: int)
    requires
        0 <= from <= text.len(),
        forall|i: int| from <= i ==> !#[trigger] stands_at(text, pattern, i),
    ensures
        replaced_from(text, pattern, by, from) == text,
    decreases text.len() - from,
{
    assert(!stands_at(text, pattern, from));
    if from < text.len() && from + pattern.len() <= text.len() {
        lemma_nothing_replaced(text, pattern, by, from + 1);
    }
}

/// The first occurrence of a pattern is replaced, and what stands before and
/// behind it stays; a text in which the pattern does not occur stays as it is.
pub proof fn law_first_occurrence_is_replaced(
    text: Seq<char>,
    pattern: Seq<char>,
    by: Seq<char>,
    at: int,
)
    ensures
        0 <= at && at + pattern.len() <= text.len() && text.subrange(at, at + pattern.len())
            == pattern && (forall|i: int|
            0 <= i < at ==> #[trigger] text.subrange(i, i + pattern.len()) != pattern)
            ==> replaced_once(text, pattern, by) == text.take(at) + by + text.skip(
            (at + pattern.len()) as int,
        ),
        (forall|i: int|
            0 <= i && i + pattern.len() <= text.len() ==> #[trigger] text.subrange(
                i,
                i + pattern.len(),
            ) != pattern) ==> replaced_once(text, pattern, by) == text,
{
    if 0 <= at && at + pattern.len() <= text.len() && text.subrange(at, at + pattern.len())
        == pattern && (forall|i: int|
        0 <= i < at ==> #[trigger] text.subrange(i, i + pattern.len()) != pattern) {
        assert forall|i: int| 0 <= i < at implies !#[trigger] stands_at(text, pattern, i) by {
            assert(text.subrange(i, i + pattern.len()) != pattern);
        }
        lemma_replaced_from(text, pattern, by, 0, at);
        assert(stands_at(text, pattern, at));
    }
    if forall|i: int|
        0 <= i && i + pattern.len() <= text.len() ==> #[trigger] text.subrange(
            i,
            i + pattern.len(),
        ) != pattern {
        assert forall|i: int| 0 <= i implies !#[trigger] stands_at(text, pattern, i) by {
            if i + pattern.len() <= text.len() {
                assert(text.subrange(i, i + pattern.len()) != pattern);
            }
        }
        lemma_nothing_replaced(text, pattern, by, 0);
    }
}

/// White are the tab, the ends of lines and pages, the blank, the next-line sign,
/// the no-break blanks and the other blanks of Unicode, and nothing else.
pub proof fn law_white_characters(c: char)
    ensures
        white_space(c) <==> c == '\t' || c == '\n' || c as u32 == 11 || c as u32 == 12 || c == '\r'
            || c == ' ' || c as u32 == 133 || c as u32 == 160 || c as u32 == 5760 || 8192
            <= c as u32 <= 8202 || c as u32 == 8232 || c as u32 == 8233 || c as u32 == 8239
            || c as u32 == 8287 || c as u32 == 12288,
{
}

/// The text form of an identifier has hyphens behind the first 8, 12, 16 and 20
/// digits, and lower-case hexadecimal digits everywhere else.
pub proof fn law_identifier_is_written_in_groups(id: u128, i: int)
    requires
        0 <= i < 36,
    ensures
        hyphenated(id)[i] == '-' <==> i == 8 || i == 13 || i == 18 || i == 23,
        hyphenated(id)[i] == '-' || '0' as u32 <= hyphenated(id)[i] as u32 <= '9' as u32
            || 'a' as u32 <= hyphenated(id)[i] as u32 <= 'f' as u32,
{
    let k = i - hyphens_before(i);
    let s: u128 = (4 * (31 - k)) as u128;
    assert((id >> s) & 0xF < 16) by (bit_vector);
    assert(nibble(id, k) < 16);
}

/// The digits of the text form of an identifier.
proof fn lemma_digit_of(a: u128, b: u128, k: int)
    requires
        0 <= k < 32,
        hyphenated(a) == hyphenated(b),
    ensures
        nibble(a, k) == nibble(b, k),
{
    let i = if k < 8 {
        k
    } else if k < 12 {
        k + 1
    } else if k < 16 {
        k + 2
    } else if k < 20 {
        k + 3
    } else {
        k + 4
    };
    assert(i - hyphens_before(i) == k);
    assert(hyphenated(a)[i] == hex_digit(nibble(a, k)));
    assert(hyphenated(b)[i] == hex_digit(nibble(b, k)));
    let s: u128 = (4 * (31 - k)) as u128;
    assert((a >> s) & 0xF < 16) by (bit_vector);
    assert((b >> s) & 0xF < 16) by (bit_vector);
}

/// Different identifiers have different text forms, each of 36 characters.
pub proof fn law_identifiers_differ_in_writing(a: u128, b: u128)
    requires
        hyphenated(a) == hyphenated(b),
    ensures
        a == b,
        hyphenated(a).len() == 36,
{
    assert forall|k: int| 0 <= k < 32 implies #[trigger] nibble(a, k) == nibble(b, k) by {
        lemma_digit_of(a, b, k);
    }
    assert(nibble(a, 0) == nibble(b, 0) && nibble(a, 1) == nibble(b, 1) && nibble(a, 2) == nibble(
        b,
        2,
    ) && nibble(a, 3) == nibble(b, 3) && nibble(a, 4) == nibble(b, 4) && nibble(a, 5) == nibble(
        b,
        5,
    ) && nibble(a, 6) == nibble(b, 6) && nibble(a, 7) == nibble(b, 7) && nibble(a, 8) == nibble(
        b,
        8,
    ) && nibble(a, 9) == nibble(b, 9) && nibble(a, 10) == nibble(b, 10) && nibble(a, 11) == nibble(
        b,
        11,
    ) && nibble(a, 12) == nibble(b, 12) && nibble(a, 13) == nibble(b, 13) && nibble(a, 14)
        == nibble(b, 14) && nibble(a, 15) == nibble(b, 15));
    assert(nibble(a, 16) == nibble(b, 16) && nibble(a, 17) == nibble(b, 17) && nibble(a, 18)
        == nibble(b, 18) && nibble(a, 19) == nibble(b, 19) && nibble(a, 20) == nibble(b, 20)
        && nibble(a, 21) == nibble(b, 21) && nibble(a, 22) == nibble(b, 22) && nibble(a, 23)
        == nibble(b, 23) && nibble(a, 24) == nibble(b, 24) && nibble(a, 25) == nibble(b, 25)
        && nibble(a, 26) == nibble(b, 26) && nibble(a, 27) == nibble(b, 27) && nibble(a, 28)
        == nibble(b, 28) && nibble(a, 29) == nibble(b, 29) && nibble(a, 30) == nibble(b, 30)
        && nibble(a, 31) == nibble(b, 31));
    assert(a == b) by (bit_vector)
        requires
            (a >> 124u128) & 0xF == (b >> 124u128) & 0xF,
            (a >> 120u128) & 0xF == (b >> 120u128) & 0xF,
            (a >> 116u128) & 0xF == (b >> 116u128) & 0xF,
            (a >> 112u128) & 0xF == (b >> 112u128) & 0xF,
            (a >> 108u128) & 0xF == (b >> 108u128) & 0xF,
            (a >> 104u128) & 0xF == (b >> 104u128) & 0xF,
            (a >> 100u128) & 0xF == (b >> 100u128) & 0xF,
            (a >> 96u128) & 0xF == (b >> 96u128) & 0xF,
            (a >> 92u128) & 0xF == (b >> 92u128) & 0xF,
            (a >> 88u128) & 0xF == (b >> 88u128) & 0xF,
            (a >> 84u128) & 0xF == (b >> 84u128) & 0xF,
            (a >> 80u128) & 0xF == (b >> 80u128) & 0xF,
            (a >> 76u128) & 0xF == (b >> 76u128) & 0xF,
            (a >> 72u128) & 0xF == (b >> 72u128) & 0xF,
            (a >> 68u128) & 0xF == (b >> 68u128) & 0xF,
            (a >> 64u128) & 0xF == (b >> 64u128) & 0xF,
            (a >> 60u128) & 0xF == (b >> 60u128) & 0xF,
            (a >> 56u128) & 0xF == (b >> 56u128) & 0xF,
            (a >> 52u128) & 0xF == (b >> 52u128) & 0xF,
            (a >> 48u128) & 0xF == (b >> 48u128) & 0xF,
            (a >> 44u128) & 0xF == (b >> 44u128) & 0xF,
            (a >> 40u128) & 0xF == (b >> 40u128) & 0xF,
            (a >> 36u128) & 0xF == (b >> 36u128) & 0xF,
            (a >> 32u128) & 0xF == (b >> 32u128) & 0xF,
            (a >> 28u128) & 0xF == (b >> 28u128) & 0xF,
            (a >> 24u128) & 0xF == (b >> 24u128) & 0xF,
            (a >> 20u128) & 0xF == (b >> 20u128) & 0xF,
            (a >> 16u128) & 0xF == (b >> 16u128) & 0xF,
            (a >> 12u128) & 0xF == (b >> 12u128) & 0xF,
            (a >> 8u128) & 0xF == (b >> 8u128) & 0xF,
            (a >> 4u128) & 0xF == (b >> 4u128) & 0xF,
            (a >> 0u128) & 0xF == (b >> 0u128) & 0xF,
    ;
}

} // verus!
