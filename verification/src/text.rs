//! Building and taking apart text.
use vstd::prelude::*;
use vstd::string::*;

verus! {

/// The character for a number below 10.
pub open spec fn digit(n: nat) -> char {
    ('0' as u32 + n) as char
}

/// A number in decimal notation.
pub open spec fn decimal(n: nat) -> Seq<char>
    decreases n,
{
    if n < 10 {
        seq![digit(n)]
    } else {
        decimal(n / 10).push(digit(n % 10))
    }
}

/// A number in decimal notation, with a minus sign where it is negative.
pub open spec fn signed_decimal(n: int) -> Seq<char> {
    if n < 0 {
        seq!['-'] + decimal((-n) as nat)
    } else {
        decimal(n as nat)
    }
}

/// The texts one after the other, with `separator` between them.
pub open spec fn joined(texts: Seq<Seq<char>>, separator: Seq<char>) -> Seq<char>
    decreases texts.len(),
{
    if texts.len() == 0 {
        Seq::empty()
    } else if texts.len() == 1 {
        texts[0]
    } else {
        joined(texts.drop_last(), separator) + separator + texts.last()
    }
}

/// The text, followed by as many spaces as it lacks to `width` characters.
pub open spec fn padded(text: Seq<char>, width: nat) -> Seq<char> {
    if text.len() >= width {
        text
    } else {
        text + Seq::new((width - text.len()) as nat, |i: int| ' ')
    }
}

/// The place of the first `c` in the text, or the length of the text.
pub open spec fn first_of(text: Seq<char>, c: char) -> int
    decreases text.len(),
{
    if text.len() == 0 || text[0] == c {
        0
    } else {
        1 + first_of(text.drop_first(), c)
    }
}

/// Whether two texts hold the same characters.
pub fn same_text(a: &str, b: &str) -> (r: bool)
    ensures
        r == (a@ == b@),
{
    a.to_owned() == b.to_owned()
}

/// The character for a number below 10, as a text.
fn digit_text(n: u64) -> (r: String)
    requires
        n < 10,
    ensures
        r@ == seq![digit(n as nat)],
{
    proof {
        reveal_strlit("0");
        reveal_strlit("1");
        reveal_strlit("2");
        reveal_strlit("3");
        reveal_strlit("4");
        reveal_strlit("5");
        reveal_strlit("6");
        reveal_strlit("7");
        reveal_strlit("8");
        reveal_strlit("9");
    }
    let text: &str = if n == 0 {
        "0"
    } else if n == 1 {
        "1"
    } else if n == 2 {
        "2"
    } else if n == 3 {
        "3"
    } else if n == 4 {
        "4"
    } else if n == 5 {
        "5"
    } else if n == 6 {
        "6"
    } else if n == 7 {
        "7"
    } else if n == 8 {
        "8"
    } else {
        "9"
    };
    let r = text.to_owned();
    assert(r@ =~= seq![digit(n as nat)]);
    r
}

/// The number in decimal notation.
pub fn decimal_text(n: u64) -> (r: String)
    ensures
        r@ == decimal(n as nat),
    decreases n,
{
    if n < 10 {
        digit_text(n)
    } else {
        let mut r = decimal_text(n / 10);
        let last = digit_text(n % 10);
        r.append(last.as_str());
        assert(r@ =~= decimal(n as nat));
        r
    }
}

/// The number in decimal notation, with a minus sign where it is negative.
pub fn signed_decimal_text(n: i32) -> (r: String)
    ensures
        r@ == signed_decimal(n as int),
{
    if n < 0 {
        proof {
            reveal_strlit("-");
        }
        let mut r = "-".to_owned();
        let size: u64 = (-(n as i64)) as u64;
        let digits = decimal_text(size);
        r.append(digits.as_str());
        assert(r@ =~= signed_decimal(n as int));
        r
    } else {
        decimal_text(n as u64)
    }
}

/// The texts one after the other, with `separator` between them.
pub fn join(texts: &Vec<String>, separator: &str) -> (r: String)
    ensures
        r@ == joined(texts.deep_view(), separator@),
{
    let mut r = String::new();
    let mut i: usize = 0;
    let ghost all = texts.deep_view();
    while i < texts.len()
        invariant
            i <= texts.len(),
            all == texts.deep_view(),
            r@ == joined(all.take(i as int), separator@),
        decreases texts.len() - i,
    {
        if i > 0 {
            r.append(separator);
        }
        r.append(texts[i].as_str());
        assert(all.take(i + 1).drop_last() =~= all.take(i as int));
        i = i + 1;
        assert(r@ =~= joined(all.take(i as int), separator@));
    }
    assert(all.take(all.len() as int) =~= all);
    r
}

/// The text, followed by as many spaces as it lacks to `width` characters.
pub fn pad(text: &str, width: usize) -> (r: String)
    ensures
        r@ == padded(text@, width as nat),
{
    let mut r = text.to_owned();
    let mut n: usize = text.unicode_len();
    proof {
        reveal_strlit(" ");
    }
    assert(r@ =~= text@ + Seq::new(0, |i: int| ' '));
    let ghost start = n;
    while n < width
        invariant
            start == text@.len(),
            start <= n,
            n <= width || n == start,
            r@ == text@ + Seq::new((n - start) as nat, |i: int| ' '),
            " "@ == seq![' '],
        decreases width - n,
    {
        r.append(" ");
        n = n + 1;
        assert(r@ =~= text@ + Seq::new((n - start) as nat, |i: int| ' '));
    }
    assert(r@ =~= padded(text@, width as nat));
    r
}

/// `first_of` is the place of the first `c`, or past the end where there is none.
pub proof fn lemma_first_of(text: Seq<char>, c: char)
    ensures
        0 <= first_of(text, c) <= text.len(),
        forall|i: int| 0 <= i < first_of(text, c) ==> text[i] != c,
        first_of(text, c) < text.len() ==> text[first_of(text, c)] == c,
    decreases text.len(),
{
    if text.len() > 0 && text[0] != c {
        lemma_first_of(text.drop_first(), c);
        assert forall|i: int| 0 <= i < first_of(text, c) implies text[i] != c by {
            if i > 0 {
                assert(text[i] == text.drop_first()[i - 1]);
            }
        }
    }
}

/// The place of the first `c` is told by what stands there and before.
pub proof fn lemma_first_of_at(text: Seq<char>, c: char, at: int)
    requires
        0 <= at <= text.len(),
        forall|i: int| 0 <= i < at ==> text[i] != c,
        at < text.len() ==> text[at] == c,
    ensures
        first_of(text, c) == at,
{
    lemma_first_of(text, c);
    let f = first_of(text, c);
    if f < at {
        assert(text[f] != c);
    }
    if at < f {
        assert(text[at] != c);
    }
}

/// The place of the first `c`, counted in characters, or the number of characters.
pub fn find_char(text: &str, c: char) -> (at: usize)
    ensures
        at == first_of(text@, c),
{
    let n: usize = text.unicode_len();
    let mut at: usize = 0;
    while at < n && text.get_char(at) != c
        invariant
            n == text@.len(),
            at <= n,
            forall|i: int| 0 <= i < at ==> text@[i] != c,
        decreases n - at,
    {
        at = at + 1;
    }
    proof {
        lemma_first_of_at(text@, c, at as int);
    }
    at
}

/// Whether a character has the Unicode property White_Space.
pub open spec fn white_space(c: char) -> bool {
    ||| 0x09 <= c as u32 <= 0x0d
    ||| c as u32 == 0x20
    ||| c as u32 == 0x85
    ||| c as u32 == 0xa0
    ||| c as u32 == 0x1680
    ||| 0x2000 <= c as u32 <= 0x200a
    ||| c as u32 == 0x2028
    ||| c as u32 == 0x2029
    ||| c as u32 == 0x202f
    ||| c as u32 == 0x205f
    ||| c as u32 == 0x3000
}

/// Whether a character has the Unicode property White_Space.
fn is_white_space(c: char) -> (r: bool)
    ensures
        r == white_space(c),
{
    let code: u32 = c as u32;
    if code <= 0x20 {
        code == 0x20 || (0x09 <= code && code <= 0x0d)
    } else if code < 0x2000 {
        code == 0x85 || code == 0xa0 || code == 0x1680
    } else {
        code <= 0x200a || code == 0x2028 || code == 0x2029 || code == 0x202f || code == 0x205f
            || code == 0x3000
    }
}

/// The text without the white space at its start.
pub open spec fn trimmed_start(text: Seq<char>) -> Seq<char>
    decreases text.len(),
{
    if text.len() > 0 && white_space(text[0]) {
        trimmed_start(text.drop_first())
    } else {
        text
    }
}

/// The text without the white space at its end.
pub open spec fn trimmed_end(text: Seq<char>) -> Seq<char>
    decreases text.len(),
{
    if text.len() > 0 && white_space(text.last()) {
        trimmed_end(text.drop_last())
    } else {
        text
    }
}

/// The text without the white space at its start and its end.
pub open spec fn trimmed(text: Seq<char>) -> Seq<char> {
    trimmed_end(trimmed_start(text))
}

/// The text without the white space at its start and its end.
pub fn trim(text: &str) -> (r: String)
    ensures
        r@ == trimmed(text@),
{
    let n: usize = text.unicode_len();
    let mut from: usize = 0;
    assert(text@.subrange(0, n as int) =~= text@);
    while from < n && is_white_space(text.get_char(from))
        invariant
            n == text@.len(),
            from <= n,
            trimmed_start(text@.subrange(from as int, n as int)) == trimmed_start(text@),
        decreases n - from,
    {
        assert(text@.subrange(from as int, n as int).drop_first() =~= text@.subrange(
            from + 1,
            n as int,
        ));
        from = from + 1;
    }
    let mut to: usize = n;
    let ghost rest = text@.subrange(from as int, n as int);
    assert(rest == trimmed_start(text@));
    while to > from && is_white_space(text.get_char(to - 1))
        invariant
            n == text@.len(),
            from <= to <= n,
            rest == trimmed_start(text@),
            trimmed_end(text@.subrange(from as int, to as int)) == trimmed_end(rest),
        decreases to,
    {
        assert(text@.subrange(from as int, to as int).drop_last() =~= text@.subrange(
            from as int,
            to - 1,
        ));
        to = to - 1;
    }
    text.substring_char(from, to).to_owned()
}

/// The line without a carriage return at its end.
pub open spec fn without_return(line: Seq<char>) -> Seq<char> {
    if line.len() > 0 && line.last() == '\r' {
        line.drop_last()
    } else {
        line
    }
}

/// The lines of a text. A line ends with a line feed, or with a carriage return
/// and a line feed; behind the last line it may be missing.
pub open spec fn lines_of(text: Seq<char>) -> Seq<Seq<char>>
    decreases text.len(),
{
    let end = first_of(text, '\n');
    if text.len() == 0 {
        Seq::empty()
    } else if 0 <= end < text.len() {
        seq![without_return(text.take(end))] + lines_of(text.skip(end + 1))
    } else {
        seq![text]
    }
}

/// The lines of a text.
pub fn split_lines(text: &str) -> (r: Vec<String>)
    ensures
        r.deep_view() == lines_of(text@),
{
    let n: usize = text.unicode_len();
    let mut r: Vec<String> = Vec::new();
    let mut from: usize = 0;
    let ghost all = text@;
    assert(all.skip(0) =~= all);
    assert(r.deep_view() + lines_of(all.skip(0)) =~= lines_of(all));
    while from < n
        invariant
            all == text@,
            n == all.len(),
            from <= n,
            r.deep_view() + lines_of(all.skip(from as int)) == lines_of(all),
        decreases n - from,
    {
        let rest = text.substring_char(from, n);
        assert(rest@ =~= all.skip(from as int));
        let end: usize = find_char(rest, '\n');
        proof {
            lemma_first_of(rest@, '\n');
        }
        let ghost before = r.deep_view();
        if end < n - from {
            let mut stop: usize = end;
            if end > 0 && rest.get_char(end - 1) == '\r' {
                stop = end - 1;
            }
            let line = rest.substring_char(0, stop).to_owned();
            assert(line@ =~= without_return(rest@.take(end as int)));
            r.push(line);
            assert(r.deep_view() =~= before.push(line@));
            assert(rest@.skip(end + 1) =~= all.skip(from + end + 1));
            assert(r.deep_view() + lines_of(all.skip(from + end + 1)) =~= before + lines_of(
                all.skip(from as int),
            ));
            from = from + end + 1;
        } else {
            let line = rest.to_owned();
            r.push(line);
            assert(r.deep_view() =~= before.push(line@));
            assert(all.skip(n as int) =~= Seq::<char>::empty());
            assert(r.deep_view() + lines_of(all.skip(n as int)) =~= before + lines_of(
                all.skip(from as int),
            ));
            from = n;
        }
    }
    assert(all.skip(n as int) =~= Seq::<char>::empty());
    assert(r.deep_view() =~= lines_of(all));
    r
}

/// Whether a pattern stands at a place of a text.
pub open spec fn stands_at(text: Seq<char>, pattern: Seq<char>, at: int) -> bool {
    0 <= at && at + pattern.len() <= text.len() && text.subrange(at, at + pattern.len()) == pattern
}

/// The text with the first occurrence of a pattern replaced, from a place on.
pub open spec fn replaced_from(
    text: Seq<char>,
    pattern: Seq<char>,
    by: Seq<char>,
    at: int,
) -> Seq<char>
    decreases text.len() - at,
{
    if at + pattern.len() > text.len() {
        text
    } else if stands_at(text, pattern, at) {
        text.take(at) + by + text.skip((at + pattern.len()) as int)
    } else if at < text.len() {
        replaced_from(text, pattern, by, at + 1)
    } else {
        text
    }
}

/// The text with the first occurrence of a pattern replaced.
pub open spec fn replaced_once(text: Seq<char>, pattern: Seq<char>, by: Seq<char>) -> Seq<char> {
    replaced_from(text, pattern, by, 0)
}

/// The text with the first occurrence of a pattern replaced.
pub fn replace_once(text: &str, pattern: &str, by: &str) -> (r: String)
    ensures
        r@ == replaced_once(text@, pattern@, by@),
{
    let n: usize = text.unicode_len();
    let m: usize = pattern.unicode_len();
    let mut at: usize = 0;
    while at < n && m <= n - at && !same_text(text.substring_char(at, at + m), pattern)
        invariant
            n == text@.len(),
            m == pattern@.len(),
            at <= n,
            replaced_from(text@, pattern@, by@, at as int) == replaced_once(
                text@,
                pattern@,
                by@,
            ),
        decreases n - at,
    {
        at = at + 1;
    }
    if m <= n - at && same_text(text.substring_char(at, at + m), pattern) {
        let mut r = text.substring_char(0, at).to_owned();
        assert(r@ =~= text@.take(at as int));
        r.append(by);
        r.append(text.substring_char(at + m, n));
        assert(r@ =~= text@.take(at as int) + by@ + text@.skip((at + m) as int));
        r
    } else {
        text.to_owned()
    }
}

} // verus!
