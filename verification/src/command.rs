//! The words of a command line: split at white space, where a backslash
//! keeps a space in its word.

use vstd::prelude::*;
use crate::text::{copy_range, rows};

verus! {

/// The characters with the Unicode property White_Space.
pub open spec fn is_space(c: char) -> bool {
    let v = c as u32;
    ||| 0x09 <= v <= 0x0d
    ||| v == 0x20
    ||| v == 0x85
    ||| v == 0xa0
    ||| v == 0x1680
    ||| 0x2000 <= v <= 0x200a
    ||| v == 0x2028
    ||| v == 0x2029
    ||| v == 0x202f
    ||| v == 0x205f
    ||| v == 0x3000
}

fn white(c: char) -> (b: bool)
    ensures
        b == is_space(c),
{
    let v = crate::text::code_point(c);
    (0x09 <= v && v <= 0x0d) || v == 0x20 || v == 0x85 || v == 0xa0 || v == 0x1680 || (0x2000 <= v
        && v <= 0x200a) || v == 0x2028 || v == 0x2029 || v == 0x202f || v == 0x205f || v == 0x3000
}

/// Whether a separator starts at index `i` of a text: a character that is
/// no backslash, with white space behind it.
pub open spec fn separator_at(text: Seq<char>, i: int) -> bool {
    0 <= i && i + 1 < text.len() && text[i] != '\\' && is_space(text[i + 1])
}

/// Where the first separator that starts at or after `from` ends.
pub open spec fn separator_from(text: Seq<char>, from: int) -> Option<int>
    decreases text.len() - from,
{
    if from < 0 || from + 1 >= text.len() {
        None
    } else if separator_at(text, from) {
        Some(from + 2)
    } else {
        separator_from(text, from + 1)
    }
}

/// Where the first separator found in a text ends, as a count of characters
/// from its start: a separator is white space behind a character that is no
/// backslash, together with that character.
pub open spec fn separator_end(text: Seq<char>) -> Option<int> {
    separator_from(text, 0)
}

/// The first separator ends after its two characters, within the text.
pub proof fn lemma_separator_from(text: Seq<char>, from: int)
    requires
        0 <= from,
    ensures
        separator_from(text, from) matches Some(e) ==> from + 2 <= e <= text.len()
            && separator_at(text, e - 2) && (forall|i: int|
            from <= i < e - 2 ==> !separator_at(text, i)),
        separator_from(text, from) is None ==> forall|i: int| from <= i ==> !separator_at(text, i),
    decreases text.len() - from,
{
    if from + 1 < text.len() && !separator_at(text, from) {
        lemma_separator_from(text, from + 1);
    }
}

/// `regex::Regex::find` for the pattern `[^\\](\s)`, on the text made of
/// `text`: the leftmost match, which is a character that is no backslash and
/// a character of white space behind it. The result is the end of the match,
/// counted in characters.
#[verifier::external_body]
fn find_separator(text: &Vec<char>) -> (r: Option<usize>)
    ensures
        separator_end(text@) == (match r {
            Some(e) => Some(e as int),
            None => None,
        }),
{
    let s: String = text.iter().collect();
    match regex::Regex::new(r"[^\\](\s)") {
        Ok(re) => match re.find(&s) {
            Some(m) => Some(s[..m.end()].chars().count()),
            None => None,
        },
        Err(_) => None,
    }
}

/// The index of the first character of `s` at or after `from` that is no
/// white space, or the length.
pub open spec fn trim_start(s: Seq<char>, from: int) -> int
    decreases s.len() - from,
{
    if 0 <= from < s.len() && is_space(s[from]) {
        trim_start(s, from + 1)
    } else {
        from
    }
}

/// One past the last character of `s` before `to`, and not before `from`,
/// that is no white space; `from` when there is none.
pub open spec fn trim_end(s: Seq<char>, from: int, to: int) -> int
    decreases to - from,
{
    if from < to <= s.len() && is_space(s[to - 1]) {
        trim_end(s, from, to - 1)
    } else {
        to
    }
}

/// `s` without the white space at its start and at its end.
pub open spec fn trimmed(s: Seq<char>) -> Seq<char> {
    let a = trim_start(s, 0);
    let b = trim_end(s, a, s.len() as int);
    if 0 <= a <= b <= s.len() {
        s.subrange(a, b)
    } else {
        Seq::empty()
    }
}

/// `s` with each backslash and space replaced by the space, from the left.
pub open spec fn unescaped(s: Seq<char>) -> Seq<char>
    decreases s.len(),
{
    if s.len() >= 2 && s[0] == '\\' && s[1] == ' ' {
        seq![' '] + unescaped(s.skip(2))
    } else if s.len() > 0 {
        seq![s[0]] + unescaped(s.skip(1))
    } else {
        Seq::empty()
    }
}

/// The word that a piece of a command line holds.
pub open spec fn word_of(piece: Seq<char>) -> Seq<char> {
    unescaped(trimmed(piece))
}

/// The words of a command line. Each separator ends a piece, and what is
/// left when no separator is found is the last piece. There is always one
/// word, which may be empty.
pub open spec fn split_words(s: Seq<char>) -> Seq<Seq<char>>
    decreases s.len(),
    via split_words_ends
{
    match separator_end(s) {
        Some(e) => seq![word_of(s.take(e))] + split_words(s.skip(e)),
        None => seq![word_of(s)],
    }
}

#[via_fn]
proof fn split_words_ends(s: Seq<char>) {
    lemma_separator_from(s, 0);
}

/// The word that `piece` holds.
pub fn word(piece: &Vec<char>) -> (r: Vec<char>)
    ensures
        r@ == word_of(piece@),
{
    let mut a: usize = 0;
    while a < piece.len() && white(piece[a])
        invariant
            a <= piece.len(),
            trim_start(piece@, 0) == trim_start(piece@, a as int),
        decreases piece.len() - a,
    {
        a = a + 1;
    }
    let mut b: usize = piece.len();
    while b > a && white(piece[b - 1])
        invariant
            a <= b <= piece.len(),
            trim_end(piece@, a as int, piece.len() as int) == trim_end(piece@, a as int, b as int),
        decreases b - a,
    {
        b = b - 1;
    }
    let core = copy_range(piece, a, b);
    assert(core@ == trimmed(piece@));
    let mut out: Vec<char> = Vec::new();
    let mut i: usize = 0;
    assert(core@.skip(0) == core@);
    assert(out@ + unescaped(core@) == unescaped(core@));
    while i < core.len()
        invariant
            i <= core.len(),
            unescaped(core@) == out@ + unescaped(core@.skip(i as int)),
        decreases core.len() - i,
    {
        let ghost rest = core@.skip(i as int);
        let ghost before = out@;
        if core[i] == '\\' && i + 1 < core.len() && core[i + 1] == ' ' {
            out.push(' ');
            assert(rest.skip(2) == core@.skip(i + 2));
            assert(before + (seq![' '] + unescaped(rest.skip(2))) == before.push(' ') + unescaped(
                rest.skip(2),
            ));
            i = i + 2;
        } else {
            out.push(core[i]);
            assert(rest.skip(1) == core@.skip(i + 1));
            assert(before + (seq![rest[0]] + unescaped(rest.skip(1))) == before.push(rest[0])
                + unescaped(rest.skip(1)));
            i = i + 1;
        }
    }
    assert(out@ + Seq::<char>::empty() == out@);
    out
}

/// Splits a command line into its words.
pub fn split_string(text: &Vec<char>) -> (r: Vec<Vec<char>>)
    ensures
        rows(r@) == split_words(text@),
        r@.len() > 0,
{
    let mut out: Vec<Vec<char>> = Vec::new();
    let mut start: usize = 0;
    assert(text@.skip(0) == text@);
    assert(rows(out@) + split_words(text@) == split_words(text@));
    loop
        invariant
            start <= text.len(),
            split_words(text@) == rows(out@) + split_words(text@.skip(start as int)),
        decreases text.len() - start,
    {
        let rest = copy_range(text, start, text.len());
        assert(rest@ == text@.skip(start as int));
        let ghost before = rows(out@);
        match find_separator(&rest) {
            Some(e) => {
                proof {
                    lemma_separator_from(rest@, 0);
                }
                let piece = copy_range(&rest, 0, e);
                assert(piece@ == rest@.take(e as int));
                let w = word(&piece);
                out.push(w);
                assert(rows(out@) == before.push(w@));
                assert(rest@.skip(e as int) == text@.skip(start + e));
                assert(before + (seq![w@] + split_words(rest@.skip(e as int))) == before.push(w@)
                    + split_words(rest@.skip(e as int)));
                start = start + e;
            },
            None => {
                let w = word(&rest);
                out.push(w);
                assert(rows(out@) == before.push(w@));
                return out;
            },
        }
    }
}

} // verus!
