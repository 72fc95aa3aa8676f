//! What each instruction does, as a function from the state before it to
//! the state after it.

use vstd::prelude::*;
use crate::cell::{fits, half, trunc_div, trunc_rem, wrap};
use crate::command::split_words;
use crate::error::FungeError;
use crate::geometry::Pos;
use crate::host::{Answer, Ask, Moment};
use crate::ip::{
    advanced, left_of, next_pos_of, next_valid_of, reflected, right_of, IpState,
};
use crate::rules::{permits, OnError};
use crate::stack::{drop, peek, popped_cells, top_cells, zeros};
use crate::sysinfo::system_fields;
use crate::text::{
    decimal, digits_value, first_number, joined, latin1, lines_of, without_end_spaces,
};
use crate::world::{shrunk, WorldState};

verus! {

/// How an instruction ends.
pub enum Outcome {
    /// It ran. `ips` holds the pointers that go on, a new one after the
    /// one that made it; `skip` says that a pointer standing on a `;` is to
    /// move off it like off any other cell.
    Done { world: WorldState, ips: Seq<IpState>, skip: bool },
    /// It needs the host: nothing has been done.
    Blocked(Ask),
    /// The run ends.
    Failed(FungeError),
}

/// The instruction ran and one pointer goes on.
pub open spec fn one(world: WorldState, ip: IpState) -> Outcome {
    Outcome::Done { world, ips: seq![ip], skip: false }
}

/// The instruction ran, and the pointer has moved itself.
pub open spec fn moved(world: WorldState, ip: IpState) -> Outcome {
    Outcome::Done { world, ips: seq![ip], skip: true }
}

/// The cell as a machine integer, where it is one.
pub open spec fn to_isize(c: i128) -> Option<isize> {
    if isize::MIN <= c <= isize::MAX {
        Some(c as isize)
    } else {
        None
    }
}

/// The cell as a 32-bit integer, where it is one.
pub open spec fn to_i32(c: i128) -> Option<i32> {
    if i32::MIN <= c <= i32::MAX {
        Some(c as i32)
    } else {
        None
    }
}

/// The integer as a cell of that width, where it is one.
pub open spec fn to_cell(v: int, bits: u32) -> Option<i128> {
    if fits(v, bits) {
        Some(v as i128)
    } else {
        None
    }
}

/// The size of a count that may be given as a negative number.
pub open spec fn magnitude(n: int) -> nat {
    if n < 0 {
        (-n) as nat
    } else {
        n as nat
    }
}

/// Whether `c` is the code point of a character.
pub open spec fn is_char(c: i128) -> bool {
    0 <= c <= 0xD7FF || 0xE000 <= c <= 0x10FFFF
}

/// What the instruction does that only reads and writes the top stack:
/// arithmetic, comparison, duplication, swap, discard, clear, the digits and
/// the no-op.
pub open spec fn stack_result(op: u8, t: Seq<i128>, bits: u32) -> Seq<i128> {
    let a = peek(t, 1);
    let b = peek(t, 0);
    if op == 43 {
        drop(t, 2).push(wrap(a + b, bits) as i128)
    } else if op == 45 {
        drop(t, 2).push(wrap(a - b, bits) as i128)
    } else if op == 42 {
        drop(t, 2).push(wrap(a * b, bits) as i128)
    } else if op == 47 {
        drop(t, 2).push(
            if b == 0 {
                0
            } else {
                wrap(trunc_div(a as int, b as int), bits) as i128
            },
        )
    } else if op == 37 {
        drop(t, 2).push(
            if b == 0 {
                0
            } else {
                wrap(trunc_rem(a as int, b as int), bits) as i128
            },
        )
    } else if op == 33 {
        drop(t, 1).push(
            if b == 0 {
                1
            } else {
                0
            },
        )
    } else if op == 96 {
        drop(t, 2).push(
            if a > b {
                1
            } else {
                0
            },
        )
    } else if op == 58 {
        drop(t, 1).push(b).push(b)
    } else if op == 92 {
        drop(t, 2).push(b).push(a)
    } else if op == 36 {
        drop(t, 1)
    } else if op == 110 {
        Seq::empty()
    } else if 48 <= op <= 57 {
        t.push((op - 48) as i128)
    } else if 97 <= op <= 102 {
        t.push((op - 87) as i128)
    } else {
        t
    }
}

/// The opcodes of `stack_result`.
pub open spec fn is_stack_op(op: u8) -> bool {
    ||| op == 43
    ||| op == 45
    ||| op == 42
    ||| op == 47
    ||| op == 37
    ||| op == 33
    ||| op == 96
    ||| op == 58
    ||| op == 92
    ||| op == 36
    ||| op == 110
    ||| op == 122
    ||| 48 <= op <= 57
    ||| 97 <= op <= 102
}

/// One of the four cardinal steps, by a number from 0 to 3.
pub open spec fn cardinal(dir: u8) -> Pos {
    if dir == 0 {
        Pos { x: -1isize, y: 0 }
    } else if dir == 1 {
        Pos { x: 1, y: 0 }
    } else if dir == 2 {
        Pos { x: 0, y: -1isize }
    } else {
        Pos { x: 0, y: 1 }
    }
}

/// The opcodes of `steered`.
pub open spec fn is_steer_op(op: u8) -> bool {
    ||| op == 62
    ||| op == 60
    ||| op == 94
    ||| op == 118
    ||| op == 63
    ||| op == 95
    ||| op == 124
    ||| op == 91
    ||| op == 93
    ||| op == 114
    ||| op == 119
    ||| op == 34
}

/// What the instructions do that set the delta: the arrows, the random
/// turn by `dir`, the two conditionals, the turns, the reflection and the
/// comparing turn; and `"`, which starts stringmode.
pub open spec fn steered(op: u8, ip: IpState, dir: u8) -> IpState {
    let a = peek(ip.toss, 1);
    let b = peek(ip.toss, 0);
    if op == 62 {
        IpState { delta: Pos { x: 1, y: 0 }, ..ip }
    } else if op == 60 {
        IpState { delta: Pos { x: -1isize, y: 0 }, ..ip }
    } else if op == 94 {
        IpState { delta: Pos { x: 0, y: -1isize }, ..ip }
    } else if op == 118 {
        IpState { delta: Pos { x: 0, y: 1 }, ..ip }
    } else if op == 63 {
        IpState { delta: cardinal(dir), ..ip }
    } else if op == 95 {
        IpState {
            delta: if b == 0 {
                Pos { x: 1, y: 0 }
            } else {
                Pos { x: -1isize, y: 0 }
            },
            toss: drop(ip.toss, 1),
            ..ip
        }
    } else if op == 124 {
        IpState {
            delta: if b == 0 {
                Pos { x: 0, y: 1 }
            } else {
                Pos { x: 0, y: -1isize }
            },
            toss: drop(ip.toss, 1),
            ..ip
        }
    } else if op == 91 {
        IpState { delta: left_of(ip.delta), ..ip }
    } else if op == 93 {
        IpState { delta: right_of(ip.delta), ..ip }
    } else if op == 114 {
        IpState { delta: reflected(ip.delta), ..ip }
    } else if op == 119 {
        IpState {
            delta: if a < b {
                left_of(ip.delta)
            } else if a > b {
                right_of(ip.delta)
            } else {
                ip.delta
            },
            toss: drop(ip.toss, 2),
            ..ip
        }
    } else {
        IpState { string_mode: true, ..ip }
    }
}

/// The pointer turned around: the answer to a soft error.
pub open spec fn bounced(ip: IpState) -> IpState {
    IpState { delta: reflected(ip.delta), ..ip }
}

/// What a cell does in stringmode: `"` ends the mode, anything else is
/// pushed.
pub open spec fn in_string(ip: IpState, op: i128) -> IpState {
    if op == 34 {
        IpState { string_mode: false, ..ip }
    } else {
        IpState { toss: ip.toss.push(op), ..ip }
    }
}

/// What an opcode does that is not implemented, by the error policy.
pub open spec fn unknown(ip: IpState, w: WorldState) -> Outcome {
    match w.rules.on_error {
        OnError::Ignore => one(w, ip),
        OnError::Reflect => one(w, bounced(ip)),
        OnError::Quit => Outcome::Failed(FungeError::Quit(0)),
    }
}

/// `.`: the top cell goes to the output in decimal, with a space behind it.
pub open spec fn put_number(ip: IpState, w: WorldState) -> Outcome {
    one(
        WorldState { output: w.output.push(decimal(peek(ip.toss, 0) as int) + seq![' ']), ..w },
        IpState { toss: drop(ip.toss, 1), ..ip },
    )
}

/// `,`: the top cell goes to the output as the character of that code
/// point; a cell that is none ends the run.
pub open spec fn put_char(ip: IpState, w: WorldState) -> Outcome {
    let c = peek(ip.toss, 0);
    if is_char(c) {
        one(
            WorldState { output: w.output.push(seq![c as char]), ..w },
            IpState { toss: drop(ip.toss, 1), ..ip },
        )
    } else {
        Outcome::Failed(FungeError::Casting)
    }
}

/// `#`: one move more.
pub open spec fn trampoline(ip: IpState, w: WorldState) -> Outcome {
    match next_pos_of(ip.position, ip.delta, w.extent) {
        None => Outcome::Failed(FungeError::Casting),
        Some(p) => moved(w, IpState { position: p, ..ip }),
    }
}

/// `'`: one move, and the cell found there is pushed.
pub open spec fn fetch(ip: IpState, w: WorldState) -> Outcome {
    match next_pos_of(ip.position, ip.delta, w.extent) {
        None => Outcome::Failed(FungeError::Casting),
        Some(p) => moved(w, IpState { position: p, toss: ip.toss.push(w.space[p]), ..ip }),
    }
}

/// `s`: one move, and the top cell is written there.
pub open spec fn store(ip: IpState, w: WorldState) -> Outcome {
    match next_pos_of(ip.position, ip.delta, w.extent) {
        None => Outcome::Failed(FungeError::Casting),
        Some(p) => if WorldState::can_hold(peek(ip.toss, 0), p) {
            one(
                w.written(peek(ip.toss, 0), p),
                IpState { position: p, toss: drop(ip.toss, 1), ..ip },
            )
        } else {
            Outcome::Failed(FungeError::Casting)
        },
    }
}

/// The position `(x, y)` taken from the offset, where it can be named.
pub open spec fn target(offset: Pos, x: i128, y: i128) -> Option<Pos> {
    if isize::MIN <= x <= isize::MAX && isize::MIN <= y <= isize::MAX && isize::MIN <= x + offset.x
        <= isize::MAX && isize::MIN <= y + offset.y <= isize::MAX {
        Some(Pos { x: (x + offset.x) as isize, y: (y + offset.y) as isize })
    } else {
        None
    }
}

/// `g`: pops y and x and pushes the cell at that position from the offset.
pub open spec fn get(ip: IpState, w: WorldState) -> Outcome {
    match target(ip.offset, peek(ip.toss, 1), peek(ip.toss, 0)) {
        None => Outcome::Failed(FungeError::Casting),
        Some(p) => one(w, IpState { toss: drop(ip.toss, 2).push(w.space[p]), ..ip }),
    }
}

/// `p`: pops y, x and a value, and writes the value at that position from
/// the offset.
pub open spec fn put(ip: IpState, w: WorldState) -> Outcome {
    match target(ip.offset, peek(ip.toss, 1), peek(ip.toss, 0)) {
        None => Outcome::Failed(FungeError::Casting),
        Some(p) => if WorldState::can_hold(peek(ip.toss, 2), p) {
            one(w.written(peek(ip.toss, 2), p), IpState { toss: drop(ip.toss, 3), ..ip })
        } else {
            Outcome::Failed(FungeError::Casting)
        },
    }
}

/// `x`: pops dy and dx and makes them the delta.
pub open spec fn set_delta(ip: IpState, w: WorldState) -> Outcome {
    match (to_isize(peek(ip.toss, 1)), to_isize(peek(ip.toss, 0))) {
        (Some(dx), Some(dy)) => one(
            w,
            IpState { delta: Pos { x: dx, y: dy }, toss: drop(ip.toss, 2), ..ip },
        ),
        _ => Outcome::Failed(FungeError::Casting),
    }
}

/// The pointer's position after `count` moves by `d`.
pub open spec fn hopped(p: Pos, d: Pos, w: WorldState, count: nat) -> Option<Pos>
    decreases count,
{
    if count == 0 {
        Some(p)
    } else {
        match next_pos_of(p, d, w.extent) {
            None => None,
            Some(q) => hopped(q, d, w, (count - 1) as nat),
        }
    }
}

/// `j`: pops n and makes |n| moves, backward when n is negative.
pub open spec fn jump(ip: IpState, w: WorldState) -> Outcome {
    match to_isize(peek(ip.toss, 0)) {
        None => Outcome::Failed(FungeError::Casting),
        Some(n) => match hopped(
            ip.position,
            if n < 0 {
                reflected(ip.delta)
            } else {
                ip.delta
            },
            w,
            magnitude(n as int),
        ) {
            None => Outcome::Failed(FungeError::Casting),
            Some(p) => moved(w, IpState { position: p, toss: drop(ip.toss, 1), ..ip }),
        },
    }
}

/// What an instruction reads as its input token: the next token of the
/// store, or else the line of the host's next answer. The outer `None` says
/// that the host has to be asked; the inner one that there is no input.
pub open spec fn input_token(w: WorldState) -> Option<(Option<Seq<char>>, WorldState)> {
    if w.input.len() > 0 {
        Some((Some(w.input.last()), WorldState { input: w.input.drop_last(), ..w }))
    } else if w.replies.len() > 0 {
        Some(
            (
                match w.replies[0] {
                    Answer::Line(line) => line,
                    _ => None,
                },
                WorldState { replies: w.replies.drop_first(), ..w },
            ),
        )
    } else {
        None
    }
}

/// The number that a token holds for a cell of that width: the value of its
/// first run of decimal digits, where there is one and it fits.
pub open spec fn number_in(token: Seq<char>, bits: u32) -> Option<i128> {
    if first_number(token).len() > 0 && digits_value(first_number(token)) < half(bits) {
        Some(digits_value(first_number(token)) as i128)
    } else {
        None
    }
}

/// `&`: reads a token and pushes the number in it; the pointer reflects
/// when there is no input or no number.
pub open spec fn read_number(ip: IpState, w: WorldState) -> Outcome {
    match input_token(w) {
        None => Outcome::Blocked(Ask::Line),
        Some((None, w1)) => one(w1, bounced(ip)),
        Some((Some(token), w1)) => match number_in(token, w.bits) {
            Some(n) => one(w1, IpState { toss: ip.toss.push(n), ..ip }),
            None => one(w1, bounced(ip)),
        },
    }
}

/// `~`: reads a token and pushes its first character; the pointer reflects
/// when there is no input. An empty token ends the run, and so does a
/// character that is no value of a cell.
pub open spec fn read_char(ip: IpState, w: WorldState) -> Outcome {
    match input_token(w) {
        None => Outcome::Blocked(Ask::Line),
        Some((None, w1)) => one(w1, bounced(ip)),
        Some((Some(token), w1)) => if token.len() == 0 {
            Outcome::Failed(FungeError::Input)
        } else {
            match to_cell(token[0] as int, w.bits) {
                Some(c) => one(w1, IpState { toss: ip.toss.push(c), ..ip }),
                None => Outcome::Failed(FungeError::Casting),
            }
        },
    }
}

/// `{`: pops n and opens a new top stack. For n > 0 the top n cells move
/// to it, in their order; for n < 0 it gets |n| zeros. The offset is pushed
/// on the stack that was the top, and becomes the cell one move on.
pub open spec fn begin_block(ip: IpState, w: WorldState) -> Outcome {
    match to_isize(peek(ip.toss, 0)) {
        None => Outcome::Failed(FungeError::Casting),
        Some(n) => {
            let rest = drop(ip.toss, 1);
            match (
                to_cell(ip.offset.x as int, w.bits),
                to_cell(ip.offset.y as int, w.bits),
                next_pos_of(ip.position, ip.delta, w.extent),
            ) {
                (Some(x), Some(y), Some(p)) => one(
                    w,
                    IpState {
                        offset: p,
                        toss: if n > 0 {
                            top_cells(rest, n as nat)
                        } else {
                            zeros(magnitude(n as int))
                        },
                        lower: ip.lower.push(
                            (if n > 0 {
                                drop(rest, n as int)
                            } else {
                                rest
                            }).push(x).push(y),
                        ),
                        ..ip
                    },
                ),
                _ => Outcome::Failed(FungeError::Casting),
            }
        },
    }
}

/// `}`: with one stack only the pointer reflects. Otherwise it pops n, closes
/// the top stack, takes the offset back from the stack below, and moves to
/// that stack the top n cells of the closed one for n > 0, and |n| zeros for
/// n < 0.
pub open spec fn end_block(ip: IpState, w: WorldState) -> Outcome {
    if ip.lower.len() == 0 {
        one(w, bounced(ip))
    } else {
        match to_isize(peek(ip.toss, 0)) {
            None => Outcome::Failed(FungeError::Casting),
            Some(n) => {
                let rest = drop(ip.toss, 1);
                let below = ip.lower.last();
                match (to_isize(peek(below, 1)), to_isize(peek(below, 0))) {
                    (Some(x), Some(y)) => one(
                        w,
                        IpState {
                            offset: Pos { x, y },
                            toss: drop(below, 2) + (if n > 0 {
                                top_cells(rest, n as nat)
                            } else {
                                zeros(magnitude(n as int))
                            }),
                            lower: ip.lower.drop_last(),
                            ..ip
                        },
                    ),
                    _ => Outcome::Failed(FungeError::Casting),
                }
            },
        }
    }
}

/// `u`: with one stack only the pointer reflects. Otherwise it pops n and
/// moves |n| cells, one by one: from the stack below to the top stack for
/// n > 0, the other way for n < 0.
pub open spec fn transfer(ip: IpState, w: WorldState) -> Outcome {
    if ip.lower.len() == 0 {
        one(w, bounced(ip))
    } else {
        match to_i32(peek(ip.toss, 0)) {
            None => Outcome::Failed(FungeError::Casting),
            Some(n) => {
                let rest = drop(ip.toss, 1);
                let below = ip.lower.last();
                if n > 0 {
                    one(
                        w,
                        IpState {
                            toss: rest + popped_cells(below, n as nat),
                            lower: ip.lower.drop_last().push(drop(below, n as int)),
                            ..ip
                        },
                    )
                } else if n < 0 {
                    one(
                        w,
                        IpState {
                            toss: drop(rest, -n),
                            lower: ip.lower.drop_last().push(below + popped_cells(rest, (-n) as nat)),
                            ..ip
                        },
                    )
                } else {
                    one(w, IpState { toss: rest, ..ip })
                }
            },
        }
    }
}

/// `t`: a copy of the pointer, turned around and with the next id, joins
/// the pointers right after this one. The run ends when the ids can be
/// counted no further.
pub open spec fn fork(ip: IpState, w: WorldState) -> Outcome {
    if w.next_id == usize::MAX {
        Outcome::Failed(FungeError::Casting)
    } else {
        Outcome::Done {
            world: WorldState { next_id: (w.next_id + 1) as usize, ..w },
            ips: seq![ip, IpState { id: w.next_id, delta: reflected(ip.delta), ..ip }],
            skip: false,
        }
    }
}

/// `q`: the run ends with the top cell as exit code.
pub open spec fn quit(ip: IpState) -> Outcome {
    match to_i32(peek(ip.toss, 0)) {
        None => Outcome::Failed(FungeError::Casting),
        Some(code) => Outcome::Failed(FungeError::Quit(code)),
    }
}

/// `(` and `)`: pops a count and that many cells, and reflects, since no
/// fingerprint is implemented.
pub open spec fn fingerprint(ip: IpState, w: WorldState) -> Outcome {
    match to_i32(peek(ip.toss, 0)) {
        None => Outcome::Failed(FungeError::Casting),
        Some(count) => one(w, bounced(IpState { toss: drop(ip.toss, 1 + (if count > 0 {
            count as int
        } else {
            0
        })), ..ip })),
    }
}

/// The text on a stack: the characters of the cells from the top down to
/// the first zero, which goes too, and the stack that is left. `None` when
/// a cell above the zero is no code point.
pub open spec fn text_on(t: Seq<i128>) -> Option<(Seq<char>, Seq<i128>)>
    decreases t.len(),
{
    if t.len() == 0 {
        Some((Seq::empty(), t))
    } else if t.last() == 0 {
        Some((Seq::empty(), t.drop_last()))
    } else if !is_char(t.last()) {
        None
    } else {
        match text_on(t.drop_last()) {
            None => None,
            Some((text, rest)) => Some((seq![t.last() as char] + text, rest)),
        }
    }
}

/// The world after the characters of `row` before index `upto` that are no
/// space are written from `(x0, y)` on to the right.
pub open spec fn row_written(w: WorldState, row: Seq<char>, x0: isize, y: isize, upto: nat) -> Result<
    WorldState,
    FungeError,
>
    decreases upto,
{
    if upto == 0 {
        Ok(w)
    } else {
        match row_written(w, row, x0, y, (upto - 1) as nat) {
            Err(e) => Err(e),
            Ok(w1) => if row[upto - 1] == ' ' {
                Ok(w1)
            } else if x0 + upto - 1 < isize::MAX && y < isize::MAX && fits(
                row[upto - 1] as int,
                w.bits,
            ) {
                Ok(
                    w1.written(
                        row[upto - 1] as i128,
                        Pos { x: (x0 + upto - 1) as isize, y },
                    ),
                )
            } else {
                Err(FungeError::Casting)
            },
        }
    }
}

/// The world after the rows of `block` before index `upto` are written from
/// `(x0, y0)` on downward. Spaces are not written.
pub open spec fn block_written(
    w: WorldState,
    block: Seq<Seq<char>>,
    x0: isize,
    y0: isize,
    upto: nat,
) -> Result<WorldState, FungeError>
    decreases upto,
{
    if upto == 0 {
        Ok(w)
    } else {
        match block_written(w, block, x0, y0, (upto - 1) as nat) {
            Err(e) => Err(e),
            Ok(w1) => if y0 + upto - 1 <= isize::MAX {
                row_written(
                    w1,
                    block[upto - 1],
                    x0,
                    (y0 + upto - 1) as isize,
                    block[upto - 1].len(),
                )
            } else if block[upto - 1].len() == 0 {
                Ok(w1)
            } else {
                Err(FungeError::Casting)
            },
        }
    }
}

/// The length of the longest row.
pub open spec fn longest(block: Seq<Seq<char>>) -> nat
    decreases block.len(),
{
    if block.len() == 0 {
        0
    } else if block.last().len() > longest(block.drop_last()) {
        block.last().len()
    } else {
        longest(block.drop_last())
    }
}

/// `i`: pops a file name, flags, y and x, and asks for the file. Its bytes
/// are read as characters; with an odd flag they are one row, else the
/// lines are the rows. The rows are written at `(x, y)`, but not their
/// spaces, and width, height, x and y are pushed. The pointer reflects when
/// the file cannot be read.
pub open spec fn read_file(ip: IpState, w: WorldState) -> Outcome {
    match text_on(ip.toss) {
        None => Outcome::Failed(FungeError::Casting),
        Some((name, t)) => match (to_isize(peek(t, 2)), to_isize(peek(t, 1))) {
            (Some(x0), Some(y0)) => if w.replies.len() == 0 {
                Outcome::Blocked(Ask::Read(name))
            } else {
                let w1 = WorldState { replies: w.replies.drop_first(), ..w };
                let rest = drop(t, 3);
                match w.replies[0] {
                    Answer::File(Some(bytes)) => {
                        let block = if peek(t, 0) % 2 != 0 {
                            seq![latin1(bytes)]
                        } else {
                            lines_of(latin1(bytes))
                        };
                        match (
                            block_written(w1, block, x0, y0, block.len()),
                            to_cell(longest(block) as int, w.bits),
                            to_cell(block.len() as int, w.bits),
                            to_cell(x0 as int, w.bits),
                            to_cell(y0 as int, w.bits),
                        ) {
                            (Ok(w2), Some(width), Some(height), Some(x), Some(y)) => one(
                                w2,
                                IpState {
                                    toss: rest.push(width).push(height).push(x).push(y),
                                    ..ip
                                },
                            ),
                            _ => Outcome::Failed(FungeError::Casting),
                        }
                    },
                    _ => one(w1, bounced(IpState { toss: rest, ..ip })),
                }
            },
            _ => Outcome::Failed(FungeError::Casting),
        },
    }
}

/// The characters of the `count` cells from `(x0, y)` on to the right, where
/// each is a code point and has a position.
pub open spec fn row_text(space: Map<Pos, i128>, x0: isize, y: isize, count: nat) -> Option<
    Seq<char>,
>
    decreases count,
{
    if count == 0 {
        Some(Seq::empty())
    } else {
        match row_text(space, x0, y, (count - 1) as nat) {
            None => None,
            Some(text) => if x0 + count - 1 <= isize::MAX && is_char(
                space[Pos { x: (x0 + count - 1) as isize, y }],
            ) {
                Some(text.push(space[Pos { x: (x0 + count - 1) as isize, y }] as char))
            } else {
                None
            },
        }
    }
}

/// The `count` rows of `width` cells from `(x0, y0)` on downward, as text;
/// with `trim` each without the spaces at its end.
pub open spec fn block_text(
    space: Map<Pos, i128>,
    x0: isize,
    y0: isize,
    width: nat,
    count: nat,
    trim: bool,
) -> Option<Seq<Seq<char>>>
    decreases count,
{
    if count == 0 {
        Some(Seq::empty())
    } else {
        match block_text(space, x0, y0, width, (count - 1) as nat, trim) {
            None => None,
            Some(block) => if y0 + count - 1 <= isize::MAX {
                match row_text(space, x0, (y0 + count - 1) as isize, width) {
                    None => None,
                    Some(row) => Some(
                        block.push(
                            if trim {
                                without_end_spaces(row)
                            } else {
                                row
                            },
                        ),
                    ),
                }
            } else {
                None
            },
        }
    }
}

/// A count that may be given as a negative number, which counts as none.
pub open spec fn at_least_zero(n: isize) -> nat {
    if n > 0 {
        n as nat
    } else {
        0
    }
}

/// `o`: pops width, height, y, x, flags and a file name, and asks for the
/// rectangle of that size at `(x, y)` to be written to the file, a line for
/// each row; with an odd flag the rows lose the spaces at their end. The
/// pointer reflects when the file cannot be written.
pub open spec fn write_file(ip: IpState, w: WorldState) -> Outcome {
    let t = ip.toss;
    match (
        to_isize(peek(t, 0)),
        to_isize(peek(t, 1)),
        to_isize(peek(t, 2)),
        to_isize(peek(t, 3)),
        text_on(drop(t, 5)),
    ) {
        (Some(width), Some(height), Some(y0), Some(x0), Some((name, rest))) => match block_text(
            w.space,
            x0,
            y0,
            at_least_zero(width),
            at_least_zero(height),
            peek(t, 4) % 2 != 0,
        ) {
            None => Outcome::Failed(FungeError::Casting),
            Some(block) => if w.replies.len() == 0 {
                Outcome::Blocked(Ask::Write(name, joined(block, seq!['\n']) + seq!['\n']))
            } else {
                let w1 = WorldState { replies: w.replies.drop_first(), ..w };
                match w.replies[0] {
                    Answer::Written(true) => one(w1, IpState { toss: rest, ..ip }),
                    _ => one(w1, bounced(IpState { toss: rest, ..ip })),
                }
            },
        },
        _ => Outcome::Failed(FungeError::Casting),
    }
}

/// `=`: pops a command line and asks for it to be run. What the process
/// wrote goes to the output and its exit code is pushed, or 0 when it has
/// none; 1 is pushed when the process could not be started.
pub open spec fn execute(ip: IpState, w: WorldState) -> Outcome {
    match text_on(ip.toss) {
        None => Outcome::Failed(FungeError::Casting),
        Some((line, rest)) => if w.replies.len() == 0 {
            Outcome::Blocked(Ask::Run(split_words(line)))
        } else {
            let w1 = WorldState { replies: w.replies.drop_first(), ..w };
            match w.replies[0] {
                Answer::Ran(Some((code, out))) => match (match code {
                    Some(c) => to_cell(c as int, w.bits),
                    None => Some(0i128),
                }) {
                    Some(c) => one(
                        WorldState { output: w1.output.push(latin1(out)), ..w1 },
                        IpState { toss: rest.push(c), ..ip },
                    ),
                    None => Outcome::Failed(FungeError::Casting),
                },
                _ => one(w1, IpState { toss: rest.push(1), ..ip }),
            }
        },
    }
}

/// The fields of the system information from the last to the first, one
/// after the other.
pub open spec fn all_fields(fields: Seq<Seq<i128>>, upto: nat) -> Seq<i128>
    decreases upto,
{
    if upto == 0 {
        Seq::empty()
    } else {
        fields[upto - 1] + all_fields(fields, (upto - 1) as nat)
    }
}

/// `y`: pops n, draws the extent in, and pushes system information: all 20
/// fields for n <= 0, the first of them last; field n alone for n from 1 to
/// 20; and for a larger n the cell that lies n - 20 deep in the stack.
pub open spec fn system_info(ip: IpState, w: WorldState, now: Moment) -> Outcome {
    match to_isize(peek(ip.toss, 0)) {
        None => Outcome::Failed(FungeError::Casting),
        Some(n) => {
            let w1 = WorldState { extent: shrunk(w.space, w.extent), ..w };
            let ip1 = IpState { toss: drop(ip.toss, 1), ..ip };
            match system_fields(ip1, w1, now) {
                None => Outcome::Failed(FungeError::Casting),
                Some(fields) => one(
                    w1,
                    IpState {
                        toss: if n <= 0 {
                            ip1.toss + all_fields(fields, 20)
                        } else if n <= 20 {
                            ip1.toss + fields[n - 1]
                        } else {
                            ip1.toss.push(peek(ip1.toss, n - 21))
                        },
                        ..ip1
                    },
                ),
            }
        },
    }
}

/// What an instruction other than `k` does to a pointer that is not in
/// stringmode, when the version in force has it.
#[verifier::opaque]
pub open spec fn plain(ip: IpState, w: WorldState, op: u8, now: Moment, dir: u8) -> Outcome {
    if is_stack_op(op) {
        one(w, IpState { toss: stack_result(op, ip.toss, w.bits), ..ip })
    } else if is_steer_op(op) {
        one(w, steered(op, ip, dir))
    } else if op == 46 {
        put_number(ip, w)
    } else if op == 44 {
        put_char(ip, w)
    } else if op == 35 {
        trampoline(ip, w)
    } else if op == 112 {
        put(ip, w)
    } else if op == 103 {
        get(ip, w)
    } else if op == 38 {
        read_number(ip, w)
    } else if op == 126 {
        read_char(ip, w)
    } else if op == 64 {
        Outcome::Done { world: w, ips: Seq::empty(), skip: false }
    } else if op == 39 {
        fetch(ip, w)
    } else if op == 123 {
        begin_block(ip, w)
    } else if op == 125 {
        end_block(ip, w)
    } else if op == 61 {
        execute(ip, w)
    } else if op == 40 || op == 41 {
        fingerprint(ip, w)
    } else if op == 105 {
        read_file(ip, w)
    } else if op == 106 {
        jump(ip, w)
    } else if op == 111 {
        write_file(ip, w)
    } else if op == 113 {
        quit(ip)
    } else if op == 115 {
        store(ip, w)
    } else if op == 116 {
        fork(ip, w)
    } else if op == 117 {
        transfer(ip, w)
    } else if op == 120 {
        set_delta(ip, w)
    } else if op == 121 {
        system_info(ip, w, now)
    } else {
        unknown(ip, w)
    }
}

/// What the instruction `op` does to a pointer that is not in stringmode,
/// when the version in force has it.
pub open spec fn decoded(ip: IpState, w: WorldState, op: u8, now: Moment, dir: u8, depth: nat, bound: nat) -> Outcome
    decreases depth, bound, 2nat, 0nat,
{
    if op == 107 {
        iterated(ip, w, now, dir, depth, bound)
    } else {
        plain(ip, w, op, now, dir)
    }
}

/// What the cell `op` does to a pointer. In stringmode it is pushed, and `"`
/// ends the mode. An opcode bound by a fingerprint does nothing. An
/// instruction of the version in force does what `decoded` says; any other
/// value falls to the error policy.
pub open spec fn executed(ip: IpState, w: WorldState, op: i128, now: Moment, dir: u8, depth: nat, bound: nat) -> Outcome
    decreases depth, bound, 3nat, 0nat,
{
    if ip.string_mode {
        one(w, in_string(ip, op))
    } else if ip.fingerprints.contains(op) {
        one(w, ip)
    } else if 0 <= op <= 255 && permits(w.rules.version, op as u8) {
        decoded(ip, w, op as u8, now, dir, depth, bound)
    } else {
        unknown(ip, w)
    }
}

/// `k`: pops n and finds the next instruction. For n = 0 the pointer moves
/// onto it, and so past it without running it. For n > 0 the instruction is
/// run n times, by each pointer that the runs before it left, while this
/// pointer stays where it is. A negative n runs nothing.
///
/// Where `k` runs `k`, the stack is as a rule lower each time, since each
/// takes its count from it: `bound` is the height of the stack of the `k`
/// that runs this one. `depth` is how often a `k` may still be run on a
/// stack that is no lower; beyond that the run ends with `Nesting`.
pub open spec fn iterated(ip: IpState, w: WorldState, now: Moment, dir: u8, depth: nat, bound: nat) -> Outcome
    decreases depth, bound, 1nat, 0nat,
{
    match to_isize(peek(ip.toss, 0)) {
        None => Outcome::Failed(FungeError::Casting),
        Some(n) => {
            let ip1 = IpState { toss: drop(ip.toss, 1), ..ip };
            match next_valid_of(ip1, w, false) {
                Err(e) => Outcome::Failed(e),
                Ok(p) => if n == 0 {
                    moved(w, IpState { position: p, ..ip1 })
                } else if n < 0 {
                    moved(w, ip1)
                } else if ip.toss.len() < bound {
                    rounds(seq![ip1], w, w.space[p], n as nat, true, now, dir, depth, ip.toss.len())
                } else if depth > 0 {
                    rounds(
                        seq![ip1],
                        w,
                        w.space[p],
                        n as nat,
                        true,
                        now,
                        dir,
                        (depth - 1) as nat,
                        ip.toss.len(),
                    )
                } else {
                    Outcome::Failed(FungeError::Nesting)
                },
            }
        },
    }
}

/// `count` rounds of the instruction `op`: in each, every pointer of `ips`
/// runs it once, in order, and the pointers they leave make the next round.
pub open spec fn rounds(
    ips: Seq<IpState>,
    w: WorldState,
    op: i128,
    count: nat,
    skip: bool,
    now: Moment,
    dir: u8,
    depth: nat, bound: nat,
) -> Outcome
    decreases depth, bound, 5nat, count,
{
    if count == 0 {
        Outcome::Done { world: w, ips, skip }
    } else {
        match round(ips, Seq::empty(), w, op, skip, now, dir, depth, bound) {
            Outcome::Done { world, ips: next, skip: s } => rounds(
                next,
                world,
                op,
                (count - 1) as nat,
                s,
                now,
                dir,
                depth,
                bound,
            ),
            other => other,
        }
    }
}

/// One round: every pointer of `todo` runs `op` once, in order; `done`
/// holds what the pointers before them left.
pub open spec fn round(
    todo: Seq<IpState>,
    done: Seq<IpState>,
    w: WorldState,
    op: i128,
    skip: bool,
    now: Moment,
    dir: u8,
    depth: nat, bound: nat,
) -> Outcome
    decreases depth, bound, 4nat, todo.len(),
{
    if todo.len() == 0 {
        Outcome::Done { world: w, ips: done, skip }
    } else {
        match executed(todo[0], w, op, now, dir, depth, bound) {
            Outcome::Done { world, ips, skip: s } => round(
                todo.drop_first(),
                done + ips,
                world,
                op,
                s,
                now,
                dir,
                depth,
                bound,
            ),
            other => other,
        }
    }
}

/// The pointers of `ips` before index `upto`, each moved to where it goes
/// after an instruction.
pub open spec fn all_advanced(ips: Seq<IpState>, w: WorldState, skip: bool, upto: nat) -> Result<
    Seq<IpState>,
    FungeError,
>
    decreases upto,
{
    if upto == 0 {
        Ok(Seq::empty())
    } else {
        match all_advanced(ips, w, skip, (upto - 1) as nat) {
            Err(e) => Err(e),
            Ok(before) => match advanced(ips[upto - 1], w, skip) {
                Err(e) => Err(e),
                Ok(ip) => Ok(before.push(ip)),
            },
        }
    }
}

/// How often, one within the other, `k` may run `k` on a stack that is no
/// lower than that of the `k` that runs it.
pub const MAX_DEPTH: u32 = 64;

/// The bound for the first `k` of a step: above the height of the stack.
pub open spec fn first_bound(ip: IpState) -> nat {
    if ip.toss.len() < usize::MAX {
        ip.toss.len() + 1
    } else {
        usize::MAX as nat
    }
}

/// One step of a pointer: the cell it is at is run, and the pointers that
/// go on move to their next instruction.
pub open spec fn stepped(ip: IpState, w: WorldState, now: Moment, dir: u8) -> Outcome {
    match executed(ip, w, w.space[ip.position], now, dir, MAX_DEPTH as nat, first_bound(ip)) {
        Outcome::Done { world, ips, skip } => match all_advanced(ips, world, skip, ips.len()) {
            Err(e) => Outcome::Failed(e),
            Ok(next) => Outcome::Done { world, ips: next, skip },
        },
        other => other,
    }
}

} // verus!
