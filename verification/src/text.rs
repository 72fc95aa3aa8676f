//! Text as sequences of characters: conversion to and from `String`, joining,
//! decimal numbers and line splitting.

use vstd::prelude::*;
use vstd::arithmetic::div_mod::*;

verus! {

/// The rows of a vector of character vectors.
pub open spec fn rows(v: Seq<Vec<char>>) -> Seq<Seq<char>> {
    Seq::new(v.len(), |i: int| v[i]@)
}

/// The contents of a vector of strings.
pub open spec fn texts(v: Seq<String>) -> Seq<Seq<char>> {
    Seq::new(v.len(), |i: int| v[i]@)
}

/// `parts` with `sep` between each two neighbours.
pub open spec fn joined(parts: Seq<Seq<char>>, sep: Seq<char>) -> Seq<char>
    decreases parts.len(),
{
    if parts.len() == 0 {
        Seq::empty()
    } else if parts.len() == 1 {
        parts[0]
    } else {
        joined(parts.drop_last(), sep) + sep + parts.last()
    }
}

/// `String::push`: appends one character to the string.
#[verifier::external_body]
fn push_char(s: &mut String, c: char)
    ensures
        final(s)@ == old(s)@.push(c),
{
    s.push(c);
}

/// The string that holds the characters of `chars`, in order.
pub fn string_of(chars: &Vec<char>) -> (s: String)
    ensures
        s@ == chars@,
{
    let mut s = String::new();
    let mut i: usize = 0;
    while i < chars.len()
        invariant
            i <= chars.len(),
            s@ == chars@.take(i as int),
        decreases chars.len() - i,
    {
        push_char(&mut s, chars[i]);
        i = i + 1;
        assert(chars@.take(i as int) == chars@.take(i - 1).push(chars@[i - 1]));
    }
    assert(chars@.take(chars.len() as int) == chars@);
    s
}

/// The characters of `s`, in order.
pub fn chars_of(s: &str) -> (v: Vec<char>)
    ensures
        v@ == s@,
{
    let n = s.unicode_len();
    let mut v: Vec<char> = Vec::new();
    let mut i: usize = 0;
    while i < n
        invariant
            n == s@.len(),
            i <= n,
            v@ == s@.take(i as int),
        decreases n - i,
    {
        v.push(s.get_char(i));
        i = i + 1;
        assert(s@.take(i as int) == s@.take(i - 1).push(s@[i - 1]));
    }
    assert(s@.take(n as int) == s@);
    v
}

/// A copy of `v`.
pub fn copy_chars(v: &Vec<char>) -> (r: Vec<char>)
    ensures
        r@ == v@,
{
    let mut r: Vec<char> = Vec::new();
    let mut i: usize = 0;
    while i < v.len()
        invariant
            i <= v.len(),
            r@ == v@.take(i as int),
        decreases v.len() - i,
    {
        r.push(v[i]);
        i = i + 1;
        assert(v@.take(i as int) == v@.take(i - 1).push(v@[i - 1]));
    }
    assert(v@.take(v.len() as int) == v@);
    r
}

/// Appends the characters of `tail` to `out`.
pub fn append_chars(out: &mut Vec<char>, tail: &Vec<char>)
    ensures
        final(out)@ == old(out)@ + tail@,
{
    let mut i: usize = 0;
    while i < tail.len()
        invariant
            i <= tail.len(),
            out@ == old(out)@ + tail@.take(i as int),
        decreases tail.len() - i,
    {
        out.push(tail[i]);
        i = i + 1;
        assert(tail@.take(i as int) == tail@.take(i - 1).push(tail@[i - 1]));
    }
    assert(tail@.take(tail.len() as int) == tail@);
}

/// Joins character rows with a separator.
pub fn join_rows(parts: &Vec<Vec<char>>, sep: &Vec<char>) -> (r: Vec<char>)
    ensures
        r@ == joined(rows(parts@), sep@),
{
    let mut r: Vec<char> = Vec::new();
    let mut i: usize = 0;
    while i < parts.len()
        invariant
            i <= parts.len(),
            r@ == joined(rows(parts@).take(i as int), sep@),
        decreases parts.len() - i,
    {
        let ghost before = rows(parts@).take(i as int);
        let ghost after = rows(parts@).take(i + 1);
        assert(after.drop_last() == before);
        assert(after.last() == parts@[i as int]@);
        if i > 0 {
            append_chars(&mut r, sep);
        }
        append_chars(&mut r, &parts[i]);
        proof {
            if i == 0 {
                assert(r@ == parts@[0]@);
            }
        }
        i = i + 1;
    }
    assert(rows(parts@).take(parts.len() as int) == rows(parts@));
    r
}

/// The items of `v` as text, with `s` between each two neighbours: nothing
/// for an empty `v`, and no separator after the last item.
pub fn join(v: &Vec<String>, s: &str) -> (r: String)
    ensures
        r@ == joined(texts(v@), s@),
{
    let sep = chars_of(s);
    let mut parts: Vec<Vec<char>> = Vec::new();
    let mut i: usize = 0;
    while i < v.len()
        invariant
            i <= v.len(),
            parts.len() == i,
            rows(parts@) == texts(v@).take(i as int),
        decreases v.len() - i,
    {
        let part = chars_of(v[i].as_str());
        let ghost before = parts@;
        parts.push(part);
        assert forall|j: int| 0 <= j < parts@.len() implies rows(parts@)[j] == texts(v@).take(
            i + 1,
        )[j] by {
            if j < i {
                assert(rows(before)[j] == texts(v@).take(i as int)[j]);
            }
        }
        i = i + 1;
        assert(rows(parts@) =~= texts(v@).take(i as int));
    }
    assert(texts(v@).take(v.len() as int) == texts(v@));
    let out = join_rows(&parts, &sep);
    string_of(&out)
}

/// The code point of a character.
pub fn code_point(c: char) -> (v: u32)
    ensures
        v as int == c as int,
        v <= 0x10FFFF,
{
    c as u32
}

/// The character of a decimal digit.
pub open spec fn digit_char(d: int) -> char {
    (48 + d) as char
}

pub open spec fn is_digit(c: char) -> bool {
    '0' <= c <= '9'
}

/// The decimal digits of `n`, most significant first.
pub open spec fn digits(n: nat) -> Seq<char>
    decreases n,
{
    if n < 10 {
        seq![digit_char(n as int)]
    } else {
        digits(n / 10).push(digit_char((n % 10) as int))
    }
}

/// `v` in decimal, with a minus sign when negative.
pub open spec fn decimal(v: int) -> Seq<char> {
    if v < 0 {
        seq!['-'] + digits((-v) as nat)
    } else {
        digits(v as nat)
    }
}

fn digit_of(d: u8) -> (c: char)
    requires
        d < 10,
    ensures
        c == digit_char(d as int),
{
    (48u8 + d) as char
}

/// The decimal digits of `n`.
pub fn digits_of(n: u128) -> (r: Vec<char>)
    ensures
        r@ == digits(n as nat),
{
    let mut rev: Vec<char> = Vec::new();
    let mut rest: u128 = n;
    while rest >= 10
        invariant
            digits(n as nat) == digits(rest as nat) + rev@.reverse(),
        decreases rest,
    {
        let d: u8 = (rest % 10) as u8;
        let c = digit_of(d);
        let ghost old_rev = rev@;
        rev.push(c);
        proof {
            assert(digits(rest as nat) == digits((rest / 10) as nat).push(c));
            assert(rev@.reverse() == seq![c] + old_rev.reverse());
            assert(digits((rest / 10) as nat).push(c) + old_rev.reverse() == digits(
                (rest / 10) as nat,
            ) + (seq![c] + old_rev.reverse()));
        }
        rest = rest / 10;
    }
    let c = digit_of(rest as u8);
    let mut r: Vec<char> = Vec::new();
    r.push(c);
    let mut i: usize = rev.len();
    while i > 0
        invariant
            i <= rev.len(),
            r@ == seq![c] + rev@.reverse().take(rev.len() - i),
        decreases i,
    {
        i = i - 1;
        r.push(rev[i]);
        assert(rev@.reverse().take(rev.len() - i) == rev@.reverse().take(rev.len() - i - 1).push(
            rev@[i as int],
        ));
    }
    assert(rev@.reverse().take(rev.len() as int) == rev@.reverse());
    r
}

/// `v` in decimal.
pub fn decimal_of(v: i128) -> (r: Vec<char>)
    ensures
        r@ == decimal(v as int),
{
    if v < 0 {
        let magnitude: u128 = ((-(v + 1)) as u128) + 1;
        let mut r: Vec<char> = Vec::new();
        r.push('-');
        let d = digits_of(magnitude);
        append_chars(&mut r, &d);
        r
    } else {
        digits_of(v as u128)
    }
}

/// The value of a run of decimal digits.
pub open spec fn digits_value(d: Seq<char>) -> nat
    decreases d.len(),
{
    if d.len() == 0 {
        0
    } else {
        (digits_value(d.drop_last()) * 10 + (d.last() as int - 48)) as nat
    }
}

/// The index of the first decimal digit at or after `from`, or the length.
pub open spec fn digits_start(s: Seq<char>, from: int) -> int
    decreases s.len() - from,
{
    if 0 <= from < s.len() && !is_digit(s[from]) {
        digits_start(s, from + 1)
    } else {
        from
    }
}

/// The index of the first character that is no digit at or after `from`, or
/// the length.
pub open spec fn digits_end(s: Seq<char>, from: int) -> int
    decreases s.len() - from,
{
    if 0 <= from < s.len() && is_digit(s[from]) {
        digits_end(s, from + 1)
    } else {
        from
    }
}

/// The first run of decimal digits in `s`; empty when there is none.
pub open spec fn first_number(s: Seq<char>) -> Seq<char> {
    let a = digits_start(s, 0);
    let b = digits_end(s, a);
    if 0 <= a <= b <= s.len() {
        s.subrange(a, b)
    } else {
        Seq::empty()
    }
}

pub proof fn lemma_digits_bounds(s: Seq<char>, from: int)
    requires
        0 <= from <= s.len(),
    ensures
        from <= digits_start(s, from) <= s.len(),
        from <= digits_end(s, from) <= s.len(),
    decreases s.len() - from,
{
    if from < s.len() {
        lemma_digits_bounds(s, from + 1);
    }
}

/// Reads the first run of decimal digits of `token`. `Some(v)` when there is
/// one and its value is below `limit`; `None` otherwise.
pub fn parse_number(token: &Vec<char>, limit: u128) -> (r: Option<u128>)
    ensures
        r == (if first_number(token@).len() > 0 && digits_value(first_number(token@)) < limit {
            Some(digits_value(first_number(token@)) as u128)
        } else {
            None
        }),
{
    let mut a: usize = 0;
    proof {
        lemma_digits_bounds(token@, 0);
    }
    while a < token.len() && !(token[a] >= '0' && token[a] <= '9')
        invariant
            a <= token.len(),
            digits_start(token@, 0) == digits_start(token@, a as int),
        decreases token.len() - a,
    {
        a = a + 1;
    }
    proof {
        lemma_digits_bounds(token@, a as int);
    }
    let mut b: usize = a;
    let mut value: u128 = 0;
    let mut over: bool = false;
    while b < token.len() && token[b] >= '0' && token[b] <= '9'
        invariant
            a <= b <= token.len(),
            digits_end(token@, a as int) == digits_end(token@, b as int),
            !over ==> value == digits_value(token@.subrange(a as int, b as int)) && value < limit || a
                == b && value == 0,
            !over && a == b ==> value == 0,
            over ==> digits_value(token@.subrange(a as int, b as int)) >= limit,
        decreases token.len() - b,
    {
        let d: u128 = (token[b] as u8 - 48) as u128;
        let ghost run = token@.subrange(a as int, b + 1);
        assert(run.drop_last() == token@.subrange(a as int, b as int));
        assert(run.last() == token@[b as int]);
        assert(digits_value(token@.subrange(a as int, a as int)) == 0);
        if !over {
            if value > (u128::MAX - d) / 10 {
                over = true;
            } else {
                value = value * 10 + d;
                if value >= limit {
                    over = true;
                }
            }
        }
        b = b + 1;
    }
    assert(token@.subrange(a as int, b as int) == first_number(token@));
    if a == b || over {
        None
    } else {
        Some(value)
    }
}

/// The characters whose code points the bytes are.
pub open spec fn latin1(bytes: Seq<u8>) -> Seq<char> {
    Seq::new(bytes.len(), |i: int| bytes[i] as char)
}

/// Reads each byte as the character of that code point.
pub fn chars_of_bytes(bytes: &Vec<u8>) -> (r: Vec<char>)
    ensures
        r@ == latin1(bytes@),
{
    let mut r: Vec<char> = Vec::new();
    let mut i: usize = 0;
    while i < bytes.len()
        invariant
            i <= bytes.len(),
            r@.len() == i,
            forall|j: int| 0 <= j < i ==> #[trigger] r@[j] == bytes@[j] as char,
        decreases bytes.len() - i,
    {
        r.push(bytes[i] as char);
        i = i + 1;
    }
    assert(r@ =~= latin1(bytes@));
    r
}

/// The index of the first line feed of `s` at or after `from`, or the length.
pub open spec fn line_break(s: Seq<char>, from: int) -> int
    decreases s.len() - from,
{
    if 0 <= from < s.len() && s[from] != '\n' {
        line_break(s, from + 1)
    } else {
        from
    }
}

/// `row` without a carriage return at its end.
pub open spec fn without_cr(row: Seq<char>) -> Seq<char> {
    if row.len() > 0 && row.last() == '\r' {
        row.drop_last()
    } else {
        row
    }
}

/// The lines of `s`: they end at a line feed, or at a carriage return and a
/// line feed, and the last one may end with the text.
pub open spec fn lines_of(s: Seq<char>) -> Seq<Seq<char>>
    decreases s.len(),
{
    if s.len() == 0 {
        Seq::empty()
    } else {
        let n = line_break(s, 0);
        if 0 <= n < s.len() {
            seq![without_cr(s.take(n))] + lines_of(s.skip(n + 1))
        } else {
            seq![s]
        }
    }
}

proof fn lemma_line_break(s: Seq<char>, from: int, at: int)
    requires
        0 <= from <= at <= s.len(),
        forall|k: int| from <= k < at ==> s[k] != '\n',
        at < s.len() ==> s[at] == '\n',
    ensures
        line_break(s, from) == at,
    decreases at - from,
{
    if from < at {
        lemma_line_break(s, from + 1, at);
    }
}

/// A copy of `v` from index `from` to before index `to`.
pub fn copy_range(v: &Vec<char>, from: usize, to: usize) -> (r: Vec<char>)
    requires
        from <= to <= v.len(),
    ensures
        r@ == v@.subrange(from as int, to as int),
{
    let mut r: Vec<char> = Vec::new();
    let mut i: usize = from;
    while i < to
        invariant
            from <= i <= to <= v.len(),
            r@ == v@.subrange(from as int, i as int),
        decreases to - i,
    {
        r.push(v[i]);
        i = i + 1;
        assert(v@.subrange(from as int, i as int) == v@.subrange(from as int, i - 1).push(
            v@[i - 1],
        ));
    }
    r
}

/// Splits a text into its lines.
pub fn split_lines(text: &Vec<char>) -> (r: Vec<Vec<char>>)
    ensures
        rows(r@) == lines_of(text@),
{
    let mut out: Vec<Vec<char>> = Vec::new();
    let mut start: usize = 0;
    let mut i: usize = 0;
    assert(text@.skip(0) == text@);
    assert(rows(out@) + lines_of(text@) == lines_of(text@));
    while i < text.len()
        invariant
            start <= i <= text.len(),
            lines_of(text@) == rows(out@) + lines_of(text@.skip(start as int)),
            forall|k: int| start <= k < i ==> text@[k] != '\n',
        decreases text.len() - i,
    {
        if text[i] == '\n' {
            let ghost rest = text@.skip(start as int);
            proof {
                lemma_line_break(rest, 0, i - start);
                assert(rest.skip(i - start + 1) == text@.skip(i + 1));
                assert(rest.take(i - start) == text@.subrange(start as int, i as int));
            }
            let end = if i > start && text[i - 1] == '\r' {
                i - 1
            } else {
                i
            };
            let line = copy_range(text, start, end);
            assert(line@ == without_cr(text@.subrange(start as int, i as int)));
            let ghost before = rows(out@);
            out.push(line);
            assert(rows(out@) == before.push(line@));
            assert(before + (seq![line@] + lines_of(text@.skip(i + 1))) == before.push(line@)
                + lines_of(text@.skip(i + 1)));
            start = i + 1;
        }
        i = i + 1;
    }
    if start < text.len() {
        let ghost rest = text@.skip(start as int);
        proof {
            lemma_line_break(rest, 0, rest.len() as int);
            assert(rest == text@.subrange(start as int, text.len() as int));
        }
        let line = copy_range(text, start, text.len());
        let ghost before = rows(out@);
        out.push(line);
        assert(rows(out@) == before.push(line@));
    } else {
        assert(rows(out@) + Seq::<Seq<char>>::empty() == rows(out@));
    }
    out
}

/// `row` without the spaces at its end.
pub open spec fn without_end_spaces(row: Seq<char>) -> Seq<char>
    decreases row.len(),
{
    if row.len() > 0 && row.last() == ' ' {
        without_end_spaces(row.drop_last())
    } else {
        row
    }
}

/// Takes the spaces off the end of `row`.
pub fn trim_end_spaces(row: &mut Vec<char>)
    ensures
        final(row)@ == without_end_spaces(old(row)@),
{
    while row.len() > 0 && row[row.len() - 1] == ' '
        invariant
            without_end_spaces(row@) == without_end_spaces(old(row)@),
        decreases row.len(),
    {
        row.pop();
    }
}

} // verus!
