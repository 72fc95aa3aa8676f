//! What a window on the engine shows: the part of funge-space around the
//! pointers, and text cut to the width of the window.

use vstd::prelude::*;
use crate::cell::trunc_div;
use crate::geometry::{Pos, Rect};
use crate::text::{chars_of, copy_range, lines_of, rows, split_lines, string_of, texts};

verus! {

/// `line` cut into pieces of `width` characters, the last one as long as
/// what is left; an empty line gives no piece.
pub open spec fn pieces(line: Seq<char>, width: nat) -> Seq<Seq<char>>
    decreases line.len(),
{
    if line.len() == 0 || width == 0 {
        Seq::empty()
    } else if line.len() <= width {
        seq![line]
    } else {
        seq![line.take(width as int)] + pieces(line.skip(width as int), width)
    }
}

/// The pieces of the first `upto` lines, one after the other.
pub open spec fn wrapped(lines: Seq<Seq<char>>, width: nat, upto: nat) -> Seq<Seq<char>>
    decreases upto,
{
    if upto == 0 {
        Seq::empty()
    } else {
        wrapped(lines, width, (upto - 1) as nat) + pieces(lines[upto - 1], width)
    }
}

/// Cuts the lines of `text` to at most `width` characters each.
pub fn wrap(text: &str, width: usize) -> (r: Vec<String>)
    requires
        width > 0,
    ensures
        texts(r@) == wrapped(lines_of(text@), width as nat, lines_of(text@).len()),
{
    let lines = split_lines(&chars_of(text));
    let mut out: Vec<String> = Vec::new();
    let mut i: usize = 0;
    assert(texts(out@) =~= wrapped(rows(lines@), width as nat, 0));
    while i < lines.len()
        invariant
            i <= lines.len(),
            width > 0,
            texts(out@) == wrapped(rows(lines@), width as nat, i as nat),
        decreases lines.len() - i,
    {
        let line = &lines[i];
        let ghost base = texts(out@);
        let mut from: usize = 0;
        assert(line@.skip(0) == line@);
        assert(rows(lines@)[i as int] == line@);
        while line.len() - from > width
            invariant
                from <= line.len(),
                width > 0,
                base + pieces(line@, width as nat) == texts(out@) + pieces(
                    line@.skip(from as int),
                    width as nat,
                ),
            decreases line.len() - from,
        {
            let piece = copy_range(line, from, from + width);
            let ghost rest = line@.skip(from as int);
            let ghost had = texts(out@);
            out.push(string_of(&piece));
            assert(texts(out@) =~= had.push(piece@));
            assert(rest.take(width as int) == piece@);
            assert(rest.skip(width as int) == line@.skip(from + width));
            assert(had + (seq![piece@] + pieces(rest.skip(width as int), width as nat))
                == had.push(piece@) + pieces(rest.skip(width as int), width as nat));
            from = from + width;
        }
        if line.len() - from > 0 {
            let piece = copy_range(line, from, line.len());
            let ghost had = texts(out@);
            out.push(string_of(&piece));
            assert(texts(out@) =~= had.push(piece@));
            assert(line@.skip(from as int) == piece@);
        } else {
            assert(texts(out@) + Seq::<Seq<char>>::empty() == texts(out@));
        }
        i = i + 1;
    }
    out
}

/// The sum of the numbers.
pub open spec fn total(values: Seq<isize>) -> int
    decreases values.len(),
{
    if values.len() == 0 {
        0
    } else {
        total(values.drop_last()) + values.last()
    }
}

/// The number as a machine integer, or the nearest one.
pub open spec fn clamped(v: int) -> isize {
    if v < isize::MIN {
        isize::MIN
    } else if v > isize::MAX {
        isize::MAX
    } else {
        v as isize
    }
}

/// The part of the range from `low` to `high` that a window of `size`
/// cells shows: all of it when it fits; else `size` cells, with the mean of
/// `values` in the middle where the range goes that far down, and from `low`
/// on where it does not.
pub open spec fn shown(low: isize, high: isize, size: isize, values: Seq<isize>) -> (isize, isize) {
    if size >= high - low || values.len() == 0 {
        (low, high)
    } else {
        let mean = trunc_div(total(values), values.len() as int);
        let start = clamped(
            if mean - trunc_div(size as int, 2) > low {
                mean - trunc_div(size as int, 2)
            } else {
                low as int
            },
        );
        (start, clamped(start + size))
    }
}

fn clamp(v: i128) -> (r: isize)
    ensures
        r == clamped(v as int),
{
    if v < isize::MIN as i128 {
        isize::MIN
    } else if v > isize::MAX as i128 {
        isize::MAX
    } else {
        v as isize
    }
}

fn show_range(low: isize, high: isize, size: isize, values: &Vec<isize>) -> (r: (isize, isize))
    ensures
        r == shown(low, high, size, values@),
{
    if size as i128 >= high as i128 - low as i128 || values.len() == 0 {
        return (low, high);
    }
    let mut sum: i128 = 0;
    let mut i: usize = 0;
    while i < values.len()
        invariant
            i <= values.len(),
            sum == total(values@.take(i as int)),
            -0x8000_0000_0000_0000 * i <= sum <= 0x8000_0000_0000_0000 * i,
        decreases values.len() - i,
    {
        assert(values@.take(i + 1).drop_last() == values@.take(i as int));
        sum = sum + values[i] as i128;
        i = i + 1;
    }
    assert(values@.take(values.len() as int) == values@);
    let count = values.len() as i128;
    proof {
        crate::cell::lemma_trunc_div_bound(sum as int, count as int);
        crate::cell::lemma_trunc_div_bound(size as int, 2);
    }
    let mean = match sum.checked_div(count) {
        Some(m) => m,
        None => 0,
    };
    let half = match (size as i128).checked_div(2) {
        Some(h) => h,
        None => 0,
    };
    let start = clamp(
        if mean - half > low as i128 {
            mean - half
        } else {
            low as i128
        },
    );
    (start, clamp(start as i128 + size as i128))
}

/// The xs of the positions.
pub open spec fn xs(positions: Seq<Pos>) -> Seq<isize> {
    Seq::new(positions.len(), |i: int| positions[i].x)
}

/// The ys of the positions.
pub open spec fn ys(positions: Seq<Pos>) -> Seq<isize> {
    Seq::new(positions.len(), |i: int| positions[i].y)
}

/// The part of the extent that a window of `width` by `height` cells
/// shows, with the pointers in its middle where the extent is larger than the
/// window.
pub fn window(extent: Rect, positions: &Vec<Pos>, width: isize, height: isize) -> (r: Rect)
    ensures
        (r.left, r.right) == shown(extent.left, extent.right, width, xs(positions@)),
        (r.top, r.bottom) == shown(extent.top, extent.bottom, height, ys(positions@)),
{
    let mut px: Vec<isize> = Vec::new();
    let mut py: Vec<isize> = Vec::new();
    let mut i: usize = 0;
    while i < positions.len()
        invariant
            i <= positions.len(),
            px@.len() == i,
            py@.len() == i,
            forall|k: int| 0 <= k < i ==> #[trigger] px@[k] == positions@[k].x,
            forall|k: int| 0 <= k < i ==> #[trigger] py@[k] == positions@[k].y,
        decreases positions.len() - i,
    {
        px.push(positions[i].x);
        py.push(positions[i].y);
        i = i + 1;
    }
    assert(px@ =~= xs(positions@));
    assert(py@ =~= ys(positions@));
    let (left, right) = show_range(extent.left, extent.right, width, &px);
    let (top, bottom) = show_range(extent.top, extent.bottom, height, &py);
    Rect { left, right, top, bottom }
}

} // verus!
