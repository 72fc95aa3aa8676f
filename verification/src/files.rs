//! The instructions that read a file, write a file and run a command.

use vstd::prelude::*;
use crate::command::split_string;
use crate::error::FungeError;
use crate::geometry::Pos;
use crate::host::{Reply, Request};
use crate::ip::IP;
use crate::ops::{cell_to_isize, char_of, done, int_to_cell, lemma_drop_more, Exec};
use crate::semantics::{
    at_least_zero, block_text, block_written, execute, longest, read_file, row_text, row_written,
    write_file,
};
use crate::space::fits_cell;
use crate::text::{
    append_chars, chars_of_bytes, code_point, join_rows, rows, split_lines, trim_end_spaces,
};
use crate::world::{World, WorldState};

verus! {

/// Whether `v` is odd.
pub fn is_odd(v: i128) -> (b: bool)
    ensures
        b == (v % 2 != 0),
{
    match v.checked_rem_euclid(2) {
        Some(r) => r != 0,
        None => false,
    }
}

/// A write that failed stays failed, however far the row goes on.
pub proof fn lemma_row_written_fails(
    w: WorldState,
    row: Seq<char>,
    x0: isize,
    y: isize,
    at: nat,
    upto: nat,
)
    requires
        at <= upto,
        row_written(w, row, x0, y, at) is Err,
    ensures
        row_written(w, row, x0, y, upto) == row_written(w, row, x0, y, at),
    decreases upto - at,
{
    if at < upto {
        lemma_row_written_fails(w, row, x0, y, at, (upto - 1) as nat);
    }
}

/// A write that failed stays failed, however many rows follow.
pub proof fn lemma_block_written_fails(
    w: WorldState,
    block: Seq<Seq<char>>,
    x0: isize,
    y0: isize,
    at: nat,
    upto: nat,
)
    requires
        at <= upto,
        block_written(w, block, x0, y0, at) is Err,
    ensures
        block_written(w, block, x0, y0, upto) == block_written(w, block, x0, y0, at),
    decreases upto - at,
{
    if at < upto {
        lemma_block_written_fails(w, block, x0, y0, at, (upto - 1) as nat);
    }
}

/// A row that cannot be read cannot be read further.
pub proof fn lemma_row_text_fails(space: Map<Pos, i128>, x0: isize, y: isize, at: nat, upto: nat)
    requires
        at <= upto,
        row_text(space, x0, y, at) is None,
    ensures
        row_text(space, x0, y, upto) is None,
    decreases upto - at,
{
    if at < upto {
        lemma_row_text_fails(space, x0, y, at, (upto - 1) as nat);
    }
}

/// A block that cannot be read cannot be read further.
pub proof fn lemma_block_text_fails(
    space: Map<Pos, i128>,
    x0: isize,
    y0: isize,
    width: nat,
    at: nat,
    upto: nat,
    trim: bool,
)
    requires
        at <= upto,
        block_text(space, x0, y0, width, at, trim) is None,
    ensures
        block_text(space, x0, y0, width, upto, trim) is None,
    decreases upto - at,
{
    if at < upto {
        lemma_block_text_fails(space, x0, y0, width, at, (upto - 1) as nat, trim);
    }
}

/// Writes the characters of `row` that are no space from `(x0, y)` on to the
/// right.
pub fn write_row(world: &mut World, row: &Vec<char>, x0: isize, y: isize) -> (r: Result<
    (),
    FungeError,
>)
    requires
        old(world).wf(),
    ensures
        match row_written(old(world)@, row@, x0, y, row@.len()) {
            Ok(w1) => r is Ok && final(world)@ == w1 && final(world).wf(),
            Err(e) => r == Err::<(), FungeError>(e),
        },
        final(world)@.comes_of(old(world)@),
{
    let mut j: usize = 0;
    while j < row.len()
        invariant
            j <= row.len(),
            world.wf(),
            world.bits == old(world).bits,
            world@.comes_of(old(world)@),
            row_written(old(world)@, row@, x0, y, j as nat) == Ok::<WorldState, FungeError>(world@),
        decreases row.len() - j,
    {
        let c = row[j];
        if c != ' ' {
            let x: i128 = x0 as i128 + j as i128;
            let v: i128 = code_point(c) as i128;
            if x < isize::MAX as i128 && y < isize::MAX && fits_cell(v, world.bits) {
                let r = world.insert(v, Pos { x: x as isize, y });
                assert(r is Ok);
            } else {
                proof {
                    assert(row_written(old(world)@, row@, x0, y, (j + 1) as nat) is Err);
                    lemma_row_written_fails(old(world)@, row@, x0, y, (j + 1) as nat, row@.len());
                }
                return Err(FungeError::Casting);
            }
        }
        j = j + 1;
    }
    Ok(())
}

/// Writes the rows of `block` from `(x0, y0)` on downward. Spaces are not
/// written.
pub fn insert_code(world: &mut World, block: &Vec<Vec<char>>, x0: isize, y0: isize) -> (r: Result<
    (),
    FungeError,
>)
    requires
        old(world).wf(),
    ensures
        match block_written(old(world)@, rows(block@), x0, y0, block@.len()) {
            Ok(w1) => r is Ok && final(world)@ == w1 && final(world).wf(),
            Err(e) => r == Err::<(), FungeError>(e),
        },
        final(world)@.comes_of(old(world)@),
{
    let mut i: usize = 0;
    while i < block.len()
        invariant
            i <= block.len(),
            world.wf(),
            world@.comes_of(old(world)@),
            block_written(old(world)@, rows(block@), x0, y0, i as nat) == Ok::<
                WorldState,
                FungeError,
            >(world@),
        decreases block.len() - i,
    {
        let y: i128 = y0 as i128 + i as i128;
        assert(rows(block@)[i as int] == block@[i as int]@);
        if y <= isize::MAX as i128 {
            match write_row(world, &block[i], x0, y as isize) {
                Ok(()) => {},
                Err(e) => {
                    proof {
                        assert(block_written(old(world)@, rows(block@), x0, y0, (i + 1) as nat)
                            is Err);
                        lemma_block_written_fails(
                            old(world)@,
                            rows(block@),
                            x0,
                            y0,
                            (i + 1) as nat,
                            block@.len(),
                        );
                    }
                    return Err(e);
                },
            }
        } else if block[i].len() != 0 {
            proof {
                assert(block_written(old(world)@, rows(block@), x0, y0, (i + 1) as nat) is Err);
                lemma_block_written_fails(
                    old(world)@,
                    rows(block@),
                    x0,
                    y0,
                    (i + 1) as nat,
                    block@.len(),
                );
            }
            return Err(FungeError::Casting);
        }
        i = i + 1;
    }
    Ok(())
}

/// The length of the longest row.
pub fn longest_row(block: &Vec<Vec<char>>) -> (n: usize)
    ensures
        n == longest(rows(block@)),
{
    let mut n: usize = 0;
    let mut i: usize = 0;
    while i < block.len()
        invariant
            i <= block.len(),
            n == longest(rows(block@).take(i as int)),
        decreases block.len() - i,
    {
        assert(rows(block@).take(i + 1).drop_last() == rows(block@).take(i as int));
        assert(rows(block@).take(i + 1).last() == block@[i as int]@);
        if block[i].len() > n {
            n = block[i].len();
        }
        i = i + 1;
    }
    assert(rows(block@).take(block.len() as int) == rows(block@));
    n
}

/// The characters of the `width` cells from `(x0, y)` on to the right.
pub fn read_row(world: &World, x0: isize, y: isize, width: usize) -> (r: Option<Vec<char>>)
    requires
        world.wf(),
    ensures
        match row_text(world@.space, x0, y, width as nat) {
            Some(text) => r is Some && r->0@ == text,
            None => r is None,
        },
{
    let mut text: Vec<char> = Vec::new();
    let mut i: usize = 0;
    while i < width
        invariant
            i <= width,
            world.wf(),
            row_text(world@.space, x0, y, i as nat) == Some(text@),
        decreases width - i,
    {
        let x: i128 = x0 as i128 + i as i128;
        if x <= isize::MAX as i128 {
            match char_of(world.code.read(Pos { x: x as isize, y })) {
                Some(c) => {
                    text.push(c);
                },
                None => {
                    proof {
                        assert(row_text(world@.space, x0, y, (i + 1) as nat) is None);
                        lemma_row_text_fails(world@.space, x0, y, (i + 1) as nat, width as nat);
                    }
                    return None;
                },
            }
        } else {
            proof {
                assert(row_text(world@.space, x0, y, (i + 1) as nat) is None);
                lemma_row_text_fails(world@.space, x0, y, (i + 1) as nat, width as nat);
            }
            return None;
        }
        i = i + 1;
    }
    Some(text)
}

/// The `height` rows of `width` cells from `(x0, y0)` on downward; with
/// `trim` each without the spaces at its end.
pub fn read_block(world: &World, x0: isize, y0: isize, width: usize, height: usize, trim: bool) -> (r:
    Option<Vec<Vec<char>>>)
    requires
        world.wf(),
    ensures
        match block_text(world@.space, x0, y0, width as nat, height as nat, trim) {
            Some(block) => r is Some && rows(r->0@) == block,
            None => r is None,
        },
{
    let mut block: Vec<Vec<char>> = Vec::new();
    let mut i: usize = 0;
    assert(rows(block@) =~= Seq::<Seq<char>>::empty());
    while i < height
        invariant
            i <= height,
            world.wf(),
            block_text(world@.space, x0, y0, width as nat, i as nat, trim) == Some(rows(block@)),
        decreases height - i,
    {
        let y: i128 = y0 as i128 + i as i128;
        if y <= isize::MAX as i128 {
            match read_row(world, x0, y as isize, width) {
                Some(row) => {
                    let mut row = row;
                    if trim {
                        trim_end_spaces(&mut row);
                    }
                    let ghost before = rows(block@);
                    block.push(row);
                    assert(rows(block@) =~= before.push(row@));
                },
                None => {
                    proof {
                        assert(block_text(world@.space, x0, y0, width as nat, (i + 1) as nat, trim)
                            is None);
                        lemma_block_text_fails(
                            world@.space,
                            x0,
                            y0,
                            width as nat,
                            (i + 1) as nat,
                            height as nat,
                            trim,
                        );
                    }
                    return None;
                },
            }
        } else {
            proof {
                assert(block_text(world@.space, x0, y0, width as nat, (i + 1) as nat, trim)
                    is None);
                lemma_block_text_fails(
                    world@.space,
                    x0,
                    y0,
                    width as nat,
                    (i + 1) as nat,
                    height as nat,
                    trim,
                );
            }
            return None;
        }
        i = i + 1;
    }
    Some(block)
}

fn positive(n: isize) -> (c: usize)
    ensures
        c == at_least_zero(n),
{
    if n > 0 {
        n as usize
    } else {
        0
    }
}

impl IP {
    /// `i`
    pub fn op_read_file(self, world: &mut World) -> (r: Exec)
        requires
            old(world).wf(),
        ensures
            r.outcome(final(world)@) == read_file(self@, old(world)@),
            r is Done ==> final(world).wf(),
            final(world)@.comes_of(old(world)@),
    {
        let mut ip = self;
        let name = match ip.read_string() {
            Some(name) => name,
            None => {
                return Exec::Failed(FungeError::Casting);
            },
        };
        let ghost t = ip@.toss;
        let flags = ip.pop1();
        let (cx, cy) = ip.pop2();
        proof {
            lemma_drop_more(t, 1, 2);
        }
        let x0 = match cell_to_isize(cx) {
            Some(x) => x,
            None => {
                return Exec::Failed(FungeError::Casting);
            },
        };
        let y0 = match cell_to_isize(cy) {
            Some(y) => y,
            None => {
                return Exec::Failed(FungeError::Casting);
            },
        };
        let bits = world.bits;
        match world.take_reply() {
            None => Exec::Blocked(Request::Read(name)),
            Some(Reply::File(Some(bytes))) => {
                let text = chars_of_bytes(&bytes);
                let block = if is_odd(flags) {
                    let mut one_row: Vec<Vec<char>> = Vec::new();
                    one_row.push(text);
                    assert(rows(one_row@) =~= seq![text@]);
                    one_row
                } else {
                    split_lines(&text)
                };
                match insert_code(world, &block, x0, y0) {
                    Ok(()) => {},
                    Err(e) => {
                        return Exec::Failed(FungeError::Casting);
                    },
                }
                let width = match int_to_cell(longest_row(&block) as i128, bits) {
                    Some(c) => c,
                    None => {
                        return Exec::Failed(FungeError::Casting);
                    },
                };
                let height = match int_to_cell(block.len() as i128, bits) {
                    Some(c) => c,
                    None => {
                        return Exec::Failed(FungeError::Casting);
                    },
                };
                let x = match int_to_cell(x0 as i128, bits) {
                    Some(c) => c,
                    None => {
                        return Exec::Failed(FungeError::Casting);
                    },
                };
                let y = match int_to_cell(y0 as i128, bits) {
                    Some(c) => c,
                    None => {
                        return Exec::Failed(FungeError::Casting);
                    },
                };
                ip.push1(width);
                ip.push1(height);
                ip.push1(x);
                ip.push1(y);
                done(ip)
            },
            Some(_) => {
                ip.reflect();
                done(ip)
            },
        }
    }

    /// `o`
    pub fn op_write_file(self, world: &mut World) -> (r: Exec)
        requires
            old(world).wf(),
        ensures
            r.outcome(final(world)@) == write_file(self@, old(world)@),
            r is Done ==> final(world).wf(),
            final(world)@.comes_of(old(world)@),
    {
        let mut ip = self;
        let (ch, cw) = ip.pop2();
        let (cx, cy) = ip.pop2();
        let flags = ip.pop1();
        proof {
            lemma_drop_more(self@.toss, 2, 2);
            lemma_drop_more(self@.toss, 4, 1);
        }
        let width = match cell_to_isize(cw) {
            Some(v) => v,
            None => {
                return Exec::Failed(FungeError::Casting);
            },
        };
        let height = match cell_to_isize(ch) {
            Some(v) => v,
            None => {
                return Exec::Failed(FungeError::Casting);
            },
        };
        let y0 = match cell_to_isize(cy) {
            Some(v) => v,
            None => {
                return Exec::Failed(FungeError::Casting);
            },
        };
        let x0 = match cell_to_isize(cx) {
            Some(v) => v,
            None => {
                return Exec::Failed(FungeError::Casting);
            },
        };
        let name = match ip.read_string() {
            Some(name) => name,
            None => {
                return Exec::Failed(FungeError::Casting);
            },
        };
        let block = match read_block(
            world,
            x0,
            y0,
            positive(width),
            positive(height),
            is_odd(flags),
        ) {
            Some(block) => block,
            None => {
                return Exec::Failed(FungeError::Casting);
            },
        };
        match world.take_reply() {
            None => {
                let mut feed: Vec<char> = Vec::new();
                feed.push('\n');
                assert(feed@ =~= seq!['\n']);
                let mut text = join_rows(&block, &feed);
                append_chars(&mut text, &feed);
                Exec::Blocked(Request::Write(name, text))
            },
            Some(Reply::Written(true)) => done(ip),
            Some(_) => {
                ip.reflect();
                done(ip)
            },
        }
    }

    /// `=`
    pub fn op_execute(self, world: &mut World) -> (r: Exec)
        requires
            old(world).wf(),
        ensures
            r.outcome(final(world)@) == execute(self@, old(world)@),
            r is Done ==> final(world).wf(),
            final(world)@.comes_of(old(world)@),
    {
        let mut ip = self;
        let line = match ip.read_string() {
            Some(line) => line,
            None => {
                return Exec::Failed(FungeError::Casting);
            },
        };
        let bits = world.bits;
        match world.take_reply() {
            None => Exec::Blocked(Request::Run(split_string(&line))),
            Some(Reply::Ran(Some((code, out)))) => {
                let cell = match code {
                    Some(c) => match int_to_cell(c as i128, bits) {
                        Some(v) => v,
                        None => {
                            return Exec::Failed(FungeError::Casting);
                        },
                    },
                    None => 0,
                };
                world.output.push(chars_of_bytes(&out));
                ip.push1(cell);
                done(ip)
            },
            Some(_) => {
                ip.push1(1);
                done(ip)
            },
        }
    }
}

} // verus!
