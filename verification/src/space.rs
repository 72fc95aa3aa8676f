//! Funge-space: the loaded program as dense rows, and a sparse overlay for
//! what is written outside of it. Every cell not stored reads as a space.

use vstd::prelude::*;
use std::collections::HashMap;
use crate::cell::{fits, valid_bits};
use crate::error::FungeError;
use crate::geometry::{Pos, Rect};
use crate::text::{code_point, string_of};

verus! {

/// The value of a space character, which an unwritten cell reads as.
pub const SPACE: i128 = 32;

/// The overlay's key for a position: no two positions share one.
pub open spec fn key_of(p: Pos) -> i128 {
    (p.x as int * 0x1_0000_0000_0000_0000 + (p.y as int + 0x8000_0000_0000_0000)) as i128
}

pub proof fn lemma_key_injective(p: Pos, q: Pos)
    requires
        key_of(p) == key_of(q),
    ensures
        p == q,
{
}

fn key(p: Pos) -> (k: i128)
    ensures
        k == key_of(p),
{
    (p.x as i128) * 0x1_0000_0000_0000_0000i128 + ((p.y as i128) + 0x8000_0000_0000_0000i128)
}

/// Whether `v` is a value of a cell of that width.
pub fn fits_cell(v: i128, bits: u32) -> (b: bool)
    requires
        valid_bits(bits),
    ensures
        b == fits(v as int, bits),
{
    if bits == 8 {
        -0x80 <= v && v < 0x80
    } else if bits == 16 {
        -0x8000 <= v && v < 0x8000
    } else if bits == 32 {
        -0x8000_0000 <= v && v < 0x8000_0000
    } else if bits == 64 {
        -0x8000_0000_0000_0000 <= v && v < 0x8000_0000_0000_0000
    } else {
        true
    }
}

/// `row` without its form feeds.
pub open spec fn without_ff(row: Seq<char>) -> Seq<char>
    decreases row.len(),
{
    if row.len() == 0 {
        Seq::empty()
    } else if row.last() == '\x0c' {
        without_ff(row.drop_last())
    } else {
        without_ff(row.drop_last()).push(row.last())
    }
}

/// The length of the longest row once its form feeds are gone.
pub open spec fn widest(code: Seq<Seq<char>>) -> nat
    decreases code.len(),
{
    if code.len() == 0 {
        0
    } else {
        let rest = widest(code.drop_last());
        let here = without_ff(code.last()).len();
        if here > rest {
            here
        } else {
            rest
        }
    }
}

/// What the cell at `p` holds once `code` is loaded: the character of row
/// `p.y` at column `p.x`, counted without form feeds, and a space where the
/// program has none.
pub open spec fn loaded(code: Seq<Seq<char>>, p: Pos) -> i128 {
    if 0 <= p.y < code.len() && 0 <= p.x < without_ff(code[p.y as int]).len() {
        without_ff(code[p.y as int])[p.x as int] as i128
    } else {
        SPACE
    }
}

/// Whether every character of `code` but the form feeds is a value of a
/// cell of that width.
pub open spec fn loadable(code: Seq<Seq<char>>, bits: u32) -> bool {
    forall|y: int, x: int|
        0 <= y < code.len() && 0 <= x < without_ff(code[y]).len() ==> fits(
            #[trigger] without_ff(code[y])[x] as int,
            bits,
        )
}

/// Whether `cells` holds the code points of `row`, each a value of a cell
/// of that width.
pub open spec fn holds_row(cells: Seq<i128>, row: Seq<char>, bits: u32) -> bool {
    &&& cells.len() == row.len()
    &&& forall|x: int| 0 <= x < row.len() ==> #[trigger] cells[x] == row[x] as i128
    &&& forall|x: int| 0 <= x < row.len() ==> fits(#[trigger] row[x] as int, bits)
}

/// What a window shows for a cell: its character when the value is in
/// 32..=126 or 161..=255, and the currency sign otherwise.
pub open spec fn printable(v: i128) -> char {
    if 32 <= v <= 126 || 161 <= v <= 255 {
        v as char
    } else {
        '\u{a4}'
    }
}

#[derive(Debug)]
pub struct FungeSpace {
    /// The loaded program, row by row; row `y` holds the cells `(0, y)` to
    /// `(right - 1, y)`.
    pub orig_code: Vec<Vec<i128>>,
    /// The rectangle the rows cover, from `(0, 0)`.
    pub orig_rect: Rect,
    /// The cells written outside the rows that are no space.
    pub new_code: HashMap<i128, (Pos, i128)>,
}

impl View for FungeSpace {
    type V = Map<Pos, i128>;

    /// What every cell holds.
    open spec fn view(&self) -> Map<Pos, i128> {
        Map::total(|p: Pos| self.cell(p))
    }
}

impl FungeSpace {
    /// The rows are as long and as many as the rectangle says. Each overlay
    /// entry sits under its position's key, lies outside the loaded rows and
    /// holds no space.
    pub open spec fn wf(&self) -> bool {
        &&& self.orig_rect.left == 0
        &&& self.orig_rect.top == 0
        &&& self.orig_rect.right >= 0
        &&& self.orig_rect.bottom == self.orig_code@.len()
        &&& forall|y: int|
            0 <= y < self.orig_code@.len() ==> (#[trigger] self.orig_code@[y])@.len()
                == self.orig_rect.right
        &&& forall|k: i128| #[trigger]
            self.new_code@.contains_key(k) ==> key_of(self.new_code@[k].0) == k
        &&& forall|k: i128| #[trigger]
            self.new_code@.contains_key(k) ==> !self.orig_rect.has(self.new_code@[k].0)
                && self.new_code@[k].1 != SPACE
    }

    /// The overlay after `op` is written at `p`: as it was for a cell of
    /// the loaded rows; without the cell for a space; and with the cell and
    /// what it holds for anything else.
    pub open spec fn overlay_after(&self, p: Pos, op: i128) -> Map<i128, (Pos, i128)> {
        if self.orig_rect.has(p) {
            self.new_code@
        } else if op == SPACE {
            self.new_code@.remove(key_of(p))
        } else {
            self.new_code@.insert(key_of(p), (p, op))
        }
    }

    /// What the cell at `p` holds.
    pub open spec fn cell(&self, p: Pos) -> i128 {
        if self.orig_rect.has(p) {
            self.orig_code@[p.y as int]@[p.x as int]
        } else if self.new_code@.contains_key(key_of(p)) {
            self.new_code@[key_of(p)].1
        } else {
            SPACE
        }
    }

    /// Loads a program: form feeds are dropped, and shorter rows are filled
    /// with spaces to the length of the longest. Fails when a character is no
    /// value of a cell of that width, or the program is larger than a
    /// coordinate can count.
    pub fn new(code: &Vec<Vec<char>>, bits: u32) -> (r: Result<Self, FungeError>)
        requires
            valid_bits(bits),
        ensures
            match r {
                Ok(space) => {
                    &&& space.wf()
                    &&& space.new_code@ == Map::<i128, (Pos, i128)>::empty()
                    &&& loadable(crate::text::rows(code@), bits)
                    &&& space.orig_rect == (Rect {
                        left: 0,
                        right: widest(crate::text::rows(code@)) as isize,
                        top: 0,
                        bottom: code@.len() as isize,
                    })
                    &&& widest(crate::text::rows(code@)) <= isize::MAX
                    &&& code@.len() <= isize::MAX
                    &&& forall|p: Pos| #[trigger] space.cell(p) == loaded(crate::text::rows(code@), p)
                },
                Err(e) => e == FungeError::Casting && (!loadable(crate::text::rows(code@), bits)
                    || widest(crate::text::rows(code@)) > isize::MAX || code@.len()
                    > isize::MAX),
            },
    {
        let ghost text = crate::text::rows(code@);
        if code.len() > isize::MAX as usize {
            return Err(FungeError::Casting);
        }
        // first pass: clean the rows and find the longest
        let mut clean: Vec<Vec<i128>> = Vec::new();
        let mut width: usize = 0;
        let mut y: usize = 0;
        while y < code.len()
            invariant
                y <= code.len(),
                valid_bits(bits),
                text == crate::text::rows(code@),
                clean@.len() == y,
                width == widest(text.take(y as int)),
                forall|j: int|
                    0 <= j < y ==> holds_row((#[trigger] clean@[j])@, without_ff(text[j]), bits),
            decreases code.len() - y,
        {
            let row = &code[y];
            let mut cells: Vec<i128> = Vec::new();
            let mut x: usize = 0;
            while x < row.len()
                invariant
                    x <= row.len(),
                    valid_bits(bits),
                    holds_row(cells@, without_ff(row@.take(x as int)), bits),
                    row@ == text[y as int],
                    y < code.len(),
                    text == crate::text::rows(code@),
                decreases row.len() - x,
            {
                let c = row[x];
                let ghost shorter = without_ff(row@.take(x as int));
                assert(row@.take(x + 1).drop_last() == row@.take(x as int));
                assert(row@.take(x + 1).last() == c);
                if c != '\x0c' {
                    assert(without_ff(row@.take(x + 1)) == shorter.push(c));
                    let v: i128 = code_point(c) as i128;
                    if !fits_cell(v, bits) {
                        proof {
                            lemma_without_ff_prefix(row@, x + 1);
                            let k = shorter.len() as int;
                            assert(without_ff(row@.take(x + 1))[k] == c);
                            assert(without_ff(text[y as int])[k] == c);
                            assert(text.len() == code@.len());
                            assert(!fits(without_ff(text[y as int])[k] as int, bits));
                        }
                        return Err(FungeError::Casting);
                    }
                    cells.push(v);
                } else {
                    assert(without_ff(row@.take(x + 1)) == shorter);
                }
                x = x + 1;
            }
            assert(row@.take(row.len() as int) == row@);
            assert(text.take(y + 1).drop_last() == text.take(y as int));
            assert(text.take(y + 1).last() == text[y as int]);
            if cells.len() > width {
                width = cells.len();
            }
            let ghost before = clean@;
            clean.push(cells);
            assert forall|j: int| 0 <= j < y + 1 implies holds_row(
                (#[trigger] clean@[j])@,
                without_ff(text[j]),
                bits,
            ) by {
                if j < y {
                    assert(clean@[j] == before[j]);
                }
            }
            y = y + 1;
        }
        assert(text.take(code.len() as int) == text);
        if width > isize::MAX as usize {
            return Err(FungeError::Casting);
        }
        assert forall|j: int| 0 <= j < text.len() implies without_ff(#[trigger] text[j]).len()
            <= width by {
            lemma_widest_bound(text, j);
        }
        assert forall|j: int, x: int|
            0 <= j < text.len() && 0 <= x < without_ff(text[j]).len() implies fits(
            #[trigger] without_ff(text[j])[x] as int,
            bits,
        ) by {
            assert(holds_row(clean@[j]@, without_ff(text[j]), bits));
        }
        // second pass: fill the rows with spaces
        let mut dense: Vec<Vec<i128>> = Vec::new();
        let mut y: usize = 0;
        while y < clean.len()
            invariant
                y <= clean.len(),
                dense@.len() == y,
                clean@.len() == code@.len(),
                width == widest(text),
                forall|j: int|
                    0 <= j < clean@.len() ==> holds_row(
                        (#[trigger] clean@[j])@,
                        without_ff(text[j]),
                        bits,
                    ),
                text.len() == clean@.len(),
                code@.len() <= isize::MAX,
                width <= isize::MAX,
                loadable(text, bits),
                forall|j: int| 0 <= j < text.len() ==> without_ff(#[trigger] text[j]).len() <= width,
                forall|j: int| 0 <= j < y ==> (#[trigger] dense@[j])@.len() == width,
                forall|j: int, x: int|
                    0 <= j < y && 0 <= x < width ==> #[trigger] dense@[j]@[x] == (if x
                        < clean@[j]@.len() {
                        clean@[j]@[x]
                    } else {
                        SPACE
                    }),
            decreases clean.len() - y,
        {
            let mut cells: Vec<i128> = Vec::new();
            let mut x: usize = 0;
            while x < width
                invariant
                    x <= width,
                    y < clean.len(),
                    cells@.len() == x,
                    clean@[y as int]@.len() <= width,
                    forall|i: int|
                        0 <= i < x ==> #[trigger] cells@[i] == (if i < clean@[y as int]@.len() {
                            clean@[y as int]@[i]
                        } else {
                            SPACE
                        }),
                decreases width - x,
            {
                if x < clean[y].len() {
                    cells.push(clean[y][x]);
                } else {
                    cells.push(SPACE);
                }
                x = x + 1;
            }
            dense.push(cells);
            y = y + 1;
        }
        assert(dense@.len() == code@.len());
        let space = FungeSpace {
            orig_code: dense,
            orig_rect: Rect { left: 0, right: width as isize, top: 0, bottom: code.len() as isize },
            new_code: HashMap::new(),
        };
        assert forall|p: Pos| #[trigger] space.cell(p) == loaded(text, p) by {
            if space.orig_rect.has(p) {
                let v = dense@[p.y as int]@[p.x as int];
                assert(space.orig_code@[p.y as int]@[p.x as int] == v);
                assert(holds_row(clean@[p.y as int]@, without_ff(text[p.y as int]), bits));
                if p.x < clean@[p.y as int]@.len() {
                    assert(v == clean@[p.y as int]@[p.x as int]);
                }
            } else {
                if 0 <= p.y < text.len() {
                    assert(without_ff(text[p.y as int]).len() <= width);
                }
            }
        }
        Ok(space)
    }

    /// Reads the cell at `p`.
    pub fn read(&self, p: Pos) -> (v: i128)
        requires
            self.wf(),
        ensures
            v == self.cell(p),
            v == self@[p],
    {
        if self.orig_rect.contains_pos(p) {
            self.orig_code[p.y as usize][p.x as usize]
        } else {
            let k = key(p);
            match self.new_code.get(&k) {
                Some(entry) => entry.1,
                None => SPACE,
            }
        }
    }

    /// Writes `op` at `p`. A space written outside the loaded rows takes the
    /// cell out of the overlay.
    pub fn put(&mut self, p: Pos, op: i128)
        requires
            old(self).wf(),
        ensures
            final(self).wf(),
            final(self)@ == old(self)@.insert(p, op),
            final(self).orig_rect == old(self).orig_rect,
            final(self).new_code@ == old(self).overlay_after(p, op),
            !old(self).orig_rect.has(p) ==> final(self).orig_code == old(self).orig_code,
    {
        if self.orig_rect.contains_pos(p) {
            let mut row: Vec<i128> = Vec::new();
            std::mem::swap(&mut row, &mut self.orig_code[p.y as usize]);
            row.set(p.x as usize, op);
            std::mem::swap(&mut row, &mut self.orig_code[p.y as usize]);
        } else {
            let k = key(p);
            if op == SPACE {
                self.new_code.remove(&k);
            } else {
                self.new_code.insert(k, (p, op));
            }
        }
        proof {
            assert forall|q: Pos| #[trigger] self.cell(q) == (if q == p {
                op
            } else {
                old(self).cell(q)
            }) by {
                if q != p {
                    if key_of(q) == key_of(p) {
                        lemma_key_injective(p, q);
                    }
                }
            }
            assert(self@ =~= old(self)@.insert(p, op));
        }
    }

    /// Writes `op` at the position given by the first two coordinates of
    /// `index`.
    pub fn insert(&mut self, index: Vec<isize>, op: i128)
        requires
            old(self).wf(),
            index.len() >= 2,
        ensures
            final(self).wf(),
            final(self)@ == old(self)@.insert(Pos { x: index[0], y: index[1] }, op),
            final(self).orig_rect == old(self).orig_rect,
            final(self).new_code@ == old(self).overlay_after(Pos { x: index[0], y: index[1] }, op),
            !old(self).orig_rect.has(Pos { x: index[0], y: index[1] }) ==> final(self).orig_code
                == old(self).orig_code,
    {
        self.put(Pos { x: index[0], y: index[1] }, op);
    }

    /// The window `rect` as text, one string for each row from top to
    /// bottom, with one character for each cell from left to right.
    pub fn get_string(&self, rect: Rect) -> (lines: Vec<String>)
        requires
            self.wf(),
        ensures
            lines@.len() == (if rect.bottom > rect.top {
                rect.bottom - rect.top
            } else {
                0
            }),
            forall|j: int|
                0 <= j < lines@.len() ==> (#[trigger] lines@[j])@.len() == (if rect.right
                    > rect.left {
                    rect.right - rect.left
                } else {
                    0
                }),
            forall|j: int, i: int|
                0 <= j < lines@.len() && 0 <= i < rect.right - rect.left ==> #[trigger] lines@[j]@[i]
                    == printable(
                    self@[Pos { x: (rect.left + i) as isize, y: (rect.top + j) as isize }],
                ),
    {
        let mut lines: Vec<String> = Vec::new();
        let mut y: isize = rect.top;
        while y < rect.bottom
            invariant
                self.wf(),
                rect.top <= y <= rect.bottom || (rect.bottom < rect.top && y == rect.top),
                lines@.len() == (if rect.bottom > rect.top {
                    y - rect.top
                } else {
                    0
                }),
                forall|j: int|
                    0 <= j < lines@.len() ==> (#[trigger] lines@[j])@.len() == (if rect.right
                        > rect.left {
                        rect.right - rect.left
                    } else {
                        0
                    }),
                forall|j: int, i: int|
                    0 <= j < lines@.len() && 0 <= i < rect.right - rect.left ==> #[trigger] lines@[j]@[i]
                        == printable(
                        self@[Pos { x: (rect.left + i) as isize, y: (rect.top + j) as isize }],
                    ),
            decreases rect.bottom - y,
        {
            let mut line: Vec<char> = Vec::new();
            let mut x: isize = rect.left;
            while x < rect.right
                invariant
                    self.wf(),
                    rect.left <= x <= rect.right || (rect.right < rect.left && x == rect.left),
                    line@.len() == (if rect.right > rect.left {
                        x - rect.left
                    } else {
                        0
                    }),
                    forall|i: int|
                        0 <= i < line@.len() ==> #[trigger] line@[i] == printable(
                            self@[Pos { x: (rect.left + i) as isize, y: y }],
                        ),
                decreases rect.right - x,
            {
                let v = self.read(Pos { x, y });
                line.push(show(v));
                x = x + 1;
            }
            let ghost before = lines@;
            lines.push(string_of(&line));
            assert forall|j: int, i: int|
                0 <= j < lines@.len() && 0 <= i < rect.right - rect.left implies #[trigger] lines@[j]@[i]
                == printable(
                self@[Pos { x: (rect.left + i) as isize, y: (rect.top + j) as isize }],
            ) by {
                if j < before.len() {
                    assert(lines@[j] == before[j]);
                }
            }
            assert forall|j: int| 0 <= j < lines@.len() implies (#[trigger] lines@[j])@.len() == (
            if rect.right > rect.left {
                rect.right - rect.left
            } else {
                0
            }) by {
                if j < before.len() {
                    assert(lines@[j] == before[j]);
                }
            }
            y = y + 1;
        }
        lines
    }

    /// A funge-space with the same cells.
    pub fn duplicate(&self) -> (s: Self)
        requires
            self.wf(),
        ensures
            s.wf(),
            s@ == self@,
            s.orig_rect == self.orig_rect,
            s.new_code@ == self.new_code@,
    {
        let mut dense: Vec<Vec<i128>> = Vec::new();
        let mut y: usize = 0;
        while y < self.orig_code.len()
            invariant
                y <= self.orig_code.len(),
                dense@.len() == y,
                forall|j: int| 0 <= j < y ==> (#[trigger] dense@[j])@ == self.orig_code@[j]@,
            decreases self.orig_code.len() - y,
        {
            let row = &self.orig_code[y];
            let mut cells: Vec<i128> = Vec::new();
            let mut x: usize = 0;
            while x < row.len()
                invariant
                    x <= row.len(),
                    cells@ == row@.take(x as int),
                decreases row.len() - x,
            {
                cells.push(row[x]);
                x = x + 1;
                assert(row@.take(x as int) == row@.take(x - 1).push(row@[x - 1]));
            }
            assert(row@.take(row.len() as int) == row@);
            dense.push(cells);
            y = y + 1;
        }
        let s = FungeSpace {
            orig_code: dense,
            orig_rect: self.orig_rect,
            new_code: self.new_code.clone(),
        };
        assert forall|p: Pos| #[trigger] s.cell(p) == self.cell(p) by {}
        assert(s@ =~= self@);
        s
    }
}

/// What is left of a prefix of a row is a prefix of what is left of the row.
pub proof fn lemma_without_ff_prefix(row: Seq<char>, n: int)
    requires
        0 <= n <= row.len(),
    ensures
        without_ff(row.take(n)).len() <= without_ff(row).len(),
        forall|i: int|
            0 <= i < without_ff(row.take(n)).len() ==> #[trigger] without_ff(row)[i] == without_ff(
                row.take(n),
            )[i],
    decreases row.len() - n,
{
    if n < row.len() {
        lemma_without_ff_prefix(row, n + 1);
        assert(row.take(n + 1).drop_last() == row.take(n));
    } else {
        assert(row.take(n) == row);
    }
}

/// No row is longer than the longest.
pub proof fn lemma_widest_bound(code: Seq<Seq<char>>, j: int)
    requires
        0 <= j < code.len(),
    ensures
        without_ff(code[j]).len() <= widest(code),
    decreases code.len(),
{
    if j < code.len() - 1 {
        lemma_widest_bound(code.drop_last(), j);
    }
}

/// The character a window shows for a cell.
pub fn show(v: i128) -> (c: char)
    ensures
        c == printable(v),
{
    if (32 <= v && v <= 126) || (161 <= v && v <= 255) {
        (v as u8) as char
    } else {
        '\u{a4}'
    }
}

} // verus!
