//! The input instructions and the instructions on the stack of stacks.

use vstd::prelude::*;
use crate::cell::{half, valid_bits};
use crate::error::FungeError;
use crate::geometry::Pos;
use crate::host::{Reply, Request};
use crate::ip::{IpState, IP};
use crate::ops::{
    cell_to_i32, cell_to_isize, char_of, done, int_to_cell, lemma_drop_more, Exec,
};
use crate::semantics::{
    begin_block, end_block, input_token, magnitude, read_char, read_number, text_on, transfer,
};
use crate::stack::{drop, peek, popped_cells, top_cells, zeros, Stack};
use crate::text::{code_point, parse_number};
use crate::world::World;

verus! {

/// Two to the power `bits - 1`.
pub fn half_of(bits: u32) -> (h: u128)
    requires
        valid_bits(bits),
    ensures
        h == half(bits),
{
    if bits == 8 {
        0x80
    } else if bits == 16 {
        0x8000
    } else if bits == 32 {
        0x8000_0000
    } else if bits == 64 {
        0x8000_0000_0000_0000
    } else {
        0x8000_0000_0000_0000_0000_0000_0000_0000
    }
}

/// A count given as a number that may be negative.
pub fn count_of(n: isize) -> (c: usize)
    ensures
        c == magnitude(n as int),
{
    if n == isize::MIN {
        (isize::MAX as usize) + 1
    } else if n < 0 {
        (-n) as usize
    } else {
        n as usize
    }
}

/// `count` zeros.
pub fn zero_cells(count: usize) -> (cells: Vec<i128>)
    ensures
        cells@ == zeros(count as nat),
{
    let mut cells: Vec<i128> = Vec::new();
    let mut i: usize = 0;
    while i < count
        invariant
            i <= count,
            cells@ == zeros(i as nat),
        decreases count - i,
    {
        cells.push(0);
        i = i + 1;
        assert(cells@ =~= zeros(i as nat));
    }
    cells
}

impl Stack {
    /// Pops `count` cells and hands them out, the first popped first.
    pub fn take_popped(&mut self, count: usize) -> (cells: Vec<i128>)
        ensures
            cells@ == popped_cells(old(self)@, count as nat),
            final(self)@ == drop(old(self)@, count as int),
    {
        let mut cells: Vec<i128> = Vec::new();
        let mut i: usize = 0;
        while i < count
            invariant
                i <= count,
                cells@ == popped_cells(old(self)@, i as nat),
                self@ == drop(old(self)@, i as int),
            decreases count - i,
        {
            let c = self.pop();
            proof {
                lemma_drop_more(old(self)@, i as int, 1);
            }
            cells.push(c);
            i = i + 1;
            assert(cells@ =~= popped_cells(old(self)@, i as nat));
        }
        cells
    }

    /// Pops `count` cells and hands them out in the order they lay in,
    /// bottom first.
    pub fn take_top(&mut self, count: usize) -> (cells: Vec<i128>)
        ensures
            cells@ == top_cells(old(self)@, count as nat),
            final(self)@ == drop(old(self)@, count as int),
    {
        let popped = self.take_popped(count);
        let mut cells: Vec<i128> = Vec::new();
        let mut i: usize = count;
        while i > 0
            invariant
                i <= count,
                popped@ == popped_cells(old(self)@, count as nat),
                cells@.len() == count - i,
                forall|j: int| 0 <= j < cells@.len() ==> #[trigger] cells@[j] == peek(old(self)@, count - 1 - j),
            decreases i,
        {
            i = i - 1;
            cells.push(popped[i]);
        }
        assert(cells@ =~= top_cells(old(self)@, count as nat));
        cells
    }
}

/// Takes what an input instruction reads: the next token of the store, or
/// else the line of the host's next answer. The outer `None` says that the
/// host has to be asked; the inner one that there is no input.
pub fn take_token(world: &mut World) -> (r: Option<Option<Vec<char>>>)
    requires
        old(world).wf(),
    ensures
        final(world).wf(),
        final(world)@.comes_of(old(world)@),
        match input_token(old(world)@) {
            None => r is None && final(world)@ == old(world)@,
            Some((token, w1)) => r is Some && final(world)@ == w1 && (match (r->0, token) {
                (Some(a), Some(b)) => a@ == b,
                (None, None) => true,
                _ => false,
            }),
        },
{
    if world.input.len() > 0 {
        Some(world.input.pop())
    } else {
        match world.take_reply() {
            None => None,
            Some(Reply::Line(line)) => Some(line),
            Some(_) => Some(None),
        }
    }
}

impl IP {
    /// Pops the text on the stack: the characters of the cells down to the
    /// first zero. `None` when a cell above the zero is no code point.
    pub fn read_string(&mut self) -> (r: Option<Vec<char>>)
        ensures
            match text_on(old(self)@.toss) {
                None => r is None,
                Some((text, rest)) => r is Some && r->0@ == text && final(self)@ == (IpState {
                    toss: rest,
                    ..old(self)@
                }),
            },
    {
        let mut text: Vec<char> = Vec::new();
        loop
            invariant
                self@ == (IpState { toss: self@.toss, ..old(self)@ }),
                match text_on(self@.toss) {
                    None => text_on(old(self)@.toss) is None,
                    Some((tail, rest)) => text_on(old(self)@.toss) == Some((text@ + tail, rest)),
                },
            decreases self@.toss.len(),
        {
            let ghost before = self@.toss;
            let c = self.pop1();
            if c == 0 {
                proof {
                    assert(text@ + Seq::<char>::empty() == text@);
                    if before.len() > 0 {
                        assert(before.take(before.len() - 1) == before.drop_last());
                        assert(self@.toss =~= before.drop_last());
                    } else {
                        assert(self@.toss =~= before);
                    }
                }
                return Some(text);
            }
            assert(before.take(before.len() - 1) == before.drop_last());
            match char_of(c) {
                None => {
                    return None;
                },
                Some(ch) => {
                    let ghost old_text = text@;
                    text.push(ch);
                    proof {
                        match text_on(before.drop_last()) {
                            None => {},
                            Some((tail, rest)) => {
                                assert(old_text + (seq![ch] + tail) == old_text.push(ch) + tail);
                            },
                        }
                    }
                },
            }
        }
    }

    /// `&`
    pub fn op_read_number(self, world: &mut World) -> (r: Exec)
        requires
            old(world).wf(),
        ensures
            r.outcome(final(world)@) == read_number(self@, old(world)@),
            r is Done ==> final(world).wf(),
            final(world)@.comes_of(old(world)@),
    {
        let mut ip = self;
        let limit = half_of(world.bits);
        match take_token(world) {
            None => Exec::Blocked(Request::Line),
            Some(None) => {
                ip.reflect();
                done(ip)
            },
            Some(Some(token)) => match parse_number(&token, limit) {
                Some(n) => {
                    ip.push1(n as i128);
                    done(ip)
                },
                None => {
                    ip.reflect();
                    done(ip)
                },
            },
        }
    }

    /// `~`
    pub fn op_read_char(self, world: &mut World) -> (r: Exec)
        requires
            old(world).wf(),
        ensures
            r.outcome(final(world)@) == read_char(self@, old(world)@),
            r is Done ==> final(world).wf(),
            final(world)@.comes_of(old(world)@),
    {
        let mut ip = self;
        let bits = world.bits;
        match take_token(world) {
            None => Exec::Blocked(Request::Line),
            Some(None) => {
                ip.reflect();
                done(ip)
            },
            Some(Some(token)) => {
                if token.len() == 0 {
                    Exec::Failed(FungeError::Input)
                } else {
                    match int_to_cell(code_point(token[0]) as i128, bits) {
                        Some(c) => {
                            ip.push1(c);
                            done(ip)
                        },
                        None => Exec::Failed(FungeError::Casting),
                    }
                }
            },
        }
    }

    /// `{`
    pub fn op_begin_block(self, world: &World) -> (r: Exec)
        requires
            world.wf(),
        ensures
            r.outcome(world@) == begin_block(self@, world@),
    {
        let mut ip = self;
        let n = match cell_to_isize(ip.pop1()) {
            Some(n) => n,
            None => {
                return Exec::Failed(FungeError::Casting);
            },
        };
        let x = match int_to_cell(ip.offset.x as i128, world.bits) {
            Some(x) => x,
            None => {
                return Exec::Failed(FungeError::Casting);
            },
        };
        let y = match int_to_cell(ip.offset.y as i128, world.bits) {
            Some(y) => y,
            None => {
                return Exec::Failed(FungeError::Casting);
            },
        };
        let p = match ip.next_pos(world, ip.position) {
            Some(p) => p,
            None => {
                return Exec::Failed(FungeError::Casting);
            },
        };
        let cells = if n > 0 {
            ip.stack.top.take_top(n as usize)
        } else {
            zero_cells(count_of(n))
        };
        ip.stack.push(x);
        ip.stack.push(y);
        ip.stack.push_stack(Stack { cells });
        ip.offset = p;
        done(ip)
    }

    /// `}`
    pub fn op_end_block(self, world: &World) -> (r: Exec)
        ensures
            r.outcome(world@) == end_block(self@, world@),
    {
        let mut ip = self;
        if ip.stack.lower.len() == 0 {
            ip.reflect();
            return done(ip);
        }
        let n = match cell_to_isize(ip.pop1()) {
            Some(n) => n,
            None => {
                return Exec::Failed(FungeError::Casting);
            },
        };
        let cells = if n > 0 {
            ip.stack.top.take_top(n as usize)
        } else {
            zero_cells(count_of(n))
        };
        ip.stack.pop_stack();
        let (cx, cy) = ip.pop2();
        let x = match cell_to_isize(cx) {
            Some(x) => x,
            None => {
                return Exec::Failed(FungeError::Casting);
            },
        };
        let y = match cell_to_isize(cy) {
            Some(y) => y,
            None => {
                return Exec::Failed(FungeError::Casting);
            },
        };
        ip.offset = Pos { x, y };
        ip.stack.extend(&cells);
        done(ip)
    }

    /// `u`
    pub fn op_transfer(self, world: &World) -> (r: Exec)
        ensures
            r.outcome(world@) == transfer(self@, world@),
    {
        let mut ip = self;
        if ip.stack.lower.len() == 0 {
            ip.reflect();
            return done(ip);
        }
        let n = match cell_to_i32(ip.pop1()) {
            Some(n) => n,
            None => {
                return Exec::Failed(FungeError::Casting);
            },
        };
        if n > 0 {
            let top = ip.stack.pop_stack();
            let cells = ip.stack.top.take_popped(n as usize);
            ip.stack.push_stack(top);
            ip.stack.extend(&cells);
            assert(ip@.lower =~= self@.lower.drop_last().push(drop(self@.lower.last(), n as int)));
        } else if n < 0 {
            let count: usize = (-(n as i64)) as usize;
            let cells = ip.stack.top.take_popped(count);
            let top = ip.stack.pop_stack();
            ip.stack.extend(&cells);
            ip.stack.push_stack(top);
            assert(ip@.lower =~= self@.lower.drop_last().push(
                self@.lower.last() + popped_cells(drop(self@.toss, 1), (-n) as nat),
            ));
        }
        done(ip)
    }
}

} // verus!
