//! The instructions, run on an instruction pointer and its world.

use vstd::prelude::*;
use crate::cell::{add_cells, div_cells, mul_cells, rem_cells, sub_cells, valid_bits};
use crate::error::FungeError;
use crate::geometry::Pos;
use crate::host::Request;
use crate::ip::{ip_views, IpState, IP};
use crate::rules::OnError;
use crate::semantics::{
    fetch, fingerprint, fork, get, hopped, in_string, is_char, is_stack_op, is_steer_op, jump,
    magnitude, moved, one, put, put_char, put_number, quit, set_delta, stack_result, steered,
    store, target, to_cell, to_i32, to_isize, trampoline, unknown, Outcome,
};
use crate::space::fits_cell;
use crate::stack::{drop, peek};
use crate::text::decimal_of;
use crate::world::{World, WorldState};

verus! {

/// How an instruction ended.
#[derive(Debug)]
pub enum Exec {
    /// It ran; these pointers go on. The flag says that a pointer standing
    /// on a `;` is to move off it like off any other cell.
    Done(Vec<IP>, bool),
    /// It needs the host: the world is to be put back as it was.
    Blocked(Request),
    /// The run ends.
    Failed(FungeError),
}

impl Exec {
    /// The outcome that this is, with `w` as the world it left.
    pub open spec fn outcome(self, w: WorldState) -> Outcome {
        match self {
            Exec::Done(ips, skip) => Outcome::Done { world: w, ips: ip_views(ips@), skip },
            Exec::Blocked(request) => Outcome::Blocked(request@),
            Exec::Failed(e) => Outcome::Failed(e),
        }
    }
}

/// The instruction ran and `ip` goes on.
pub fn done(ip: IP) -> (r: Exec)
    ensures
        forall|w: WorldState| #[trigger] r.outcome(w) == one(w, ip@),
        r is Done,
{
    let mut ips: Vec<IP> = Vec::new();
    ips.push(ip);
    assert(ip_views(ips@) =~= seq![ip@]);
    Exec::Done(ips, false)
}

/// The instruction ran, and `ip` has moved itself.
pub fn done_moved(ip: IP) -> (r: Exec)
    ensures
        forall|w: WorldState| #[trigger] r.outcome(w) == moved(w, ip@),
        r is Done,
{
    let mut ips: Vec<IP> = Vec::new();
    ips.push(ip);
    assert(ip_views(ips@) =~= seq![ip@]);
    Exec::Done(ips, true)
}

pub fn cell_to_isize(c: i128) -> (r: Option<isize>)
    ensures
        r == to_isize(c),
{
    if c >= isize::MIN as i128 && c <= isize::MAX as i128 {
        Some(c as isize)
    } else {
        None
    }
}

pub fn cell_to_i32(c: i128) -> (r: Option<i32>)
    ensures
        r == to_i32(c),
{
    if c >= i32::MIN as i128 && c <= i32::MAX as i128 {
        Some(c as i32)
    } else {
        None
    }
}

pub fn int_to_cell(v: i128, bits: u32) -> (r: Option<i128>)
    requires
        valid_bits(bits),
    ensures
        r == to_cell(v as int, bits),
{
    if fits_cell(v, bits) {
        Some(v)
    } else {
        None
    }
}

/// Dropping in two goes is dropping at once, and peeking past a drop is
/// peeking deeper.
pub proof fn lemma_drop_more(t: Seq<i128>, a: int, b: int)
    requires
        a >= 0,
        b >= 0,
    ensures
        drop(drop(t, a), b) == drop(t, a + b),
        forall|i: int| i >= 0 ==> #[trigger] peek(drop(t, a), i) == peek(t, a + i),
{
    assert(drop(drop(t, a), b) =~= drop(t, a + b));
}

impl IP {
    /// Pops the top two cells: the one below the top, then the top.
    pub fn pop2(&mut self) -> (r: (i128, i128))
        ensures
            r.0 == peek(old(self)@.toss, 1),
            r.1 == peek(old(self)@.toss, 0),
            final(self)@ == (IpState { toss: drop(old(self)@.toss, 2), ..old(self)@ }),
    {
        let b = self.stack.pop();
        let a = self.stack.pop();
        proof {
            lemma_drop_more(old(self)@.toss, 1, 1);
        }
        (a, b)
    }

    /// Pops the top cell.
    pub fn pop1(&mut self) -> (r: i128)
        ensures
            r == peek(old(self)@.toss, 0),
            final(self)@ == (IpState { toss: drop(old(self)@.toss, 1), ..old(self)@ }),
    {
        self.stack.pop()
    }

    /// Pushes a cell.
    pub fn push1(&mut self, cell: i128)
        ensures
            final(self)@ == (IpState { toss: old(self)@.toss.push(cell), ..old(self)@ }),
    {
        self.stack.push(cell);
    }

    /// Arithmetic, comparison, duplication, swap, discard, clear, the digits
    /// and the no-op.
    pub fn stack_op(&mut self, op: u8, bits: u32)
        requires
            valid_bits(bits),
            is_stack_op(op),
        ensures
            final(self)@ == (IpState {
                toss: stack_result(op, old(self)@.toss, bits),
                ..old(self)@
            }),
    {
        if op == 43 {
            let (a, b) = self.pop2();
            self.push1(add_cells(a, b, bits));
        } else if op == 45 {
            let (a, b) = self.pop2();
            self.push1(sub_cells(a, b, bits));
        } else if op == 42 {
            let (a, b) = self.pop2();
            self.push1(mul_cells(a, b, bits));
        } else if op == 47 {
            let (a, b) = self.pop2();
            self.push1(div_cells(a, b, bits));
        } else if op == 37 {
            let (a, b) = self.pop2();
            self.push1(rem_cells(a, b, bits));
        } else if op == 33 {
            let b = self.pop1();
            self.push1(
                if b == 0 {
                    1
                } else {
                    0
                },
            );
        } else if op == 96 {
            let (a, b) = self.pop2();
            self.push1(
                if a > b {
                    1
                } else {
                    0
                },
            );
        } else if op == 58 {
            let b = self.pop1();
            self.push1(b);
            self.push1(b);
        } else if op == 92 {
            let (a, b) = self.pop2();
            self.push1(b);
            self.push1(a);
        } else if op == 36 {
            self.pop1();
        } else if op == 110 {
            self.stack.clear();
        } else if 48 <= op && op <= 57 {
            self.push1((op - 48) as i128);
        } else if 97 <= op && op <= 102 {
            self.push1((op - 87) as i128);
        }
    }

    /// The instructions that set the delta, and `"`.
    pub fn steer(&mut self, op: u8, dir: u8)
        requires
            is_steer_op(op),
        ensures
            final(self)@ == steered(op, old(self)@, dir),
    {
        if op == 62 {
            self.delta = Pos { x: 1, y: 0 };
        } else if op == 60 {
            self.delta = Pos { x: -1, y: 0 };
        } else if op == 94 {
            self.delta = Pos { x: 0, y: -1 };
        } else if op == 118 {
            self.delta = Pos { x: 0, y: 1 };
        } else if op == 63 {
            self.delta = if dir == 0 {
                Pos { x: -1, y: 0 }
            } else if dir == 1 {
                Pos { x: 1, y: 0 }
            } else if dir == 2 {
                Pos { x: 0, y: -1 }
            } else {
                Pos { x: 0, y: 1 }
            };
        } else if op == 95 {
            let b = self.pop1();
            self.delta = if b == 0 {
                Pos { x: 1, y: 0 }
            } else {
                Pos { x: -1, y: 0 }
            };
        } else if op == 124 {
            let b = self.pop1();
            self.delta = if b == 0 {
                Pos { x: 0, y: 1 }
            } else {
                Pos { x: 0, y: -1 }
            };
        } else if op == 91 {
            self.turn_left();
        } else if op == 93 {
            self.turn_right();
        } else if op == 114 {
            self.reflect();
        } else if op == 119 {
            let (a, b) = self.pop2();
            if a < b {
                self.turn_left();
            } else if a > b {
                self.turn_right();
            }
        } else {
            self.string = true;
        }
    }

    /// What a cell does in stringmode.
    pub fn string_op(&mut self, op: i128)
        ensures
            final(self)@ == in_string(old(self)@, op),
    {
        if op == 34 {
            self.string = false;
        } else {
            self.push1(op);
        }
    }

    /// What an opcode does that is not implemented.
    pub fn not_implemented(self, world: &World) -> (r: Exec)
        ensures
            r.outcome(world@) == unknown(self@, world@),
    {
        let mut ip = self;
        match world.rules.on_error {
            OnError::Ignore => done(ip),
            OnError::Reflect => {
                ip.reflect();
                done(ip)
            },
            OnError::Quit => Exec::Failed(FungeError::Quit(0)),
        }
    }

    /// `.`
    pub fn op_put_number(self, world: &mut World) -> (r: Exec)
        requires
            old(world).wf(),
        ensures
            r.outcome(final(world)@) == put_number(self@, old(world)@),
            r is Done ==> final(world).wf(),
            final(world)@.comes_of(old(world)@),
    {
        let mut ip = self;
        let v = ip.pop1();
        let mut text = decimal_of(v);
        text.push(' ');
        assert(text@ =~= crate::text::decimal(v as int) + seq![' ']);
        world.output.push(text);
        done(ip)
    }

    /// `,`
    pub fn op_put_char(self, world: &mut World) -> (r: Exec)
        requires
            old(world).wf(),
        ensures
            r.outcome(final(world)@) == put_char(self@, old(world)@),
            r is Done ==> final(world).wf(),
            final(world)@.comes_of(old(world)@),
    {
        let mut ip = self;
        let v = ip.pop1();
        match char_of(v) {
            Some(c) => {
                let mut text: Vec<char> = Vec::new();
                text.push(c);
                assert(text@ =~= seq![v as char]);
                world.output.push(text);
                done(ip)
            },
            None => Exec::Failed(FungeError::Casting),
        }
    }

    /// `#`
    pub fn op_trampoline(self, world: &World) -> (r: Exec)
        ensures
            r.outcome(world@) == trampoline(self@, world@),
    {
        let mut ip = self;
        match ip.movep(world) {
            Ok(()) => done_moved(ip),
            Err(e) => Exec::Failed(FungeError::Casting),
        }
    }

    /// `'`
    pub fn op_fetch(self, world: &World) -> (r: Exec)
        requires
            world.wf(),
        ensures
            r.outcome(world@) == fetch(self@, world@),
    {
        let mut ip = self;
        match ip.movep(world) {
            Ok(()) => {
                let v = ip.op(world);
                ip.push1(v);
                done_moved(ip)
            },
            Err(e) => Exec::Failed(FungeError::Casting),
        }
    }

    /// `s`
    pub fn op_store(self, world: &mut World) -> (r: Exec)
        requires
            old(world).wf(),
        ensures
            r.outcome(final(world)@) == store(self@, old(world)@),
            r is Done ==> final(world).wf(),
            final(world)@.comes_of(old(world)@),
    {
        let mut ip = self;
        match ip.movep(world) {
            Ok(()) => {
                let v = ip.pop1();
                match world.insert(v, ip.position) {
                    Ok(()) => done(ip),
                    Err(e) => Exec::Failed(FungeError::Casting),
                }
            },
            Err(e) => Exec::Failed(FungeError::Casting),
        }
    }

    /// `g`
    pub fn op_get(self, world: &World) -> (r: Exec)
        requires
            world.wf(),
        ensures
            r.outcome(world@) == get(self@, world@),
    {
        let mut ip = self;
        let (x, y) = ip.pop2();
        match aim(ip.offset, x, y) {
            Some(p) => {
                ip.push1(world.code.read(p));
                done(ip)
            },
            None => Exec::Failed(FungeError::Casting),
        }
    }

    /// `p`
    pub fn op_put(self, world: &mut World) -> (r: Exec)
        requires
            old(world).wf(),
        ensures
            r.outcome(final(world)@) == put(self@, old(world)@),
            r is Done ==> final(world).wf(),
            final(world)@.comes_of(old(world)@),
    {
        let mut ip = self;
        let (x, y) = ip.pop2();
        let v = ip.pop1();
        proof {
            lemma_drop_more(self@.toss, 2, 1);
        }
        match aim(ip.offset, x, y) {
            Some(p) => match world.insert(v, p) {
                Ok(()) => done(ip),
                Err(e) => Exec::Failed(FungeError::Casting),
            },
            None => Exec::Failed(FungeError::Casting),
        }
    }

    /// `x`
    pub fn op_set_delta(self, world: &World) -> (r: Exec)
        ensures
            r.outcome(world@) == set_delta(self@, world@),
    {
        let mut ip = self;
        let (dx, dy) = ip.pop2();
        match cell_to_isize(dx) {
            Some(x) => match cell_to_isize(dy) {
                Some(y) => {
                    ip.delta = Pos { x, y };
                    done(ip)
                },
                None => Exec::Failed(FungeError::Casting),
            },
            None => Exec::Failed(FungeError::Casting),
        }
    }

    /// `j`
    pub fn op_jump(self, world: &World) -> (r: Exec)
        ensures
            r.outcome(world@) == jump(self@, world@),
    {
        let mut ip = self;
        let n = match cell_to_isize(ip.pop1()) {
            Some(n) => n,
            None => {
                return Exec::Failed(FungeError::Casting);
            },
        };
        let count: u128 = if n < 0 {
            (-(n as i128)) as u128
        } else {
            n as u128
        };
        let delta = ip.delta;
        if n < 0 {
            ip.reflect();
        }
        let ghost start = ip.position;
        let ghost d = ip.delta;
        let mut i: u128 = 0;
        while i < count
            invariant
                i <= count,
                to_isize(peek(self@.toss, 0)) == Some(n),
                start == self@.position,
                count == magnitude(n as int),
                d == (if n < 0 {
                    crate::ip::reflected(self@.delta)
                } else {
                    self@.delta
                }),
                delta == self@.delta,
                ip@ == (IpState { position: ip.position, delta: d, toss: drop(self@.toss, 1), ..self@ }),
                hopped(start, d, world@, count as nat) == hopped(
                    ip.position,
                    d,
                    world@,
                    (count - i) as nat,
                ),
            decreases count - i,
        {
            let ghost before = ip.position;
            match ip.movep(world) {
                Ok(()) => {},
                Err(e) => {
                    assert(hopped(before, d, world@, (count - i) as nat) is None);
                    return Exec::Failed(FungeError::Casting);
                },
            }
            i = i + 1;
        }
        ip.delta = delta;
        done_moved(ip)
    }

    /// `t`
    pub fn op_fork(self, world: &mut World) -> (r: Exec)
        requires
            old(world).wf(),
        ensures
            r.outcome(final(world)@) == fork(self@, old(world)@),
            r is Done ==> final(world).wf(),
            final(world)@.comes_of(old(world)@),
    {
        if world.next_id == usize::MAX {
            return Exec::Failed(FungeError::Casting);
        }
        let mut child = self.split(world.next_id);
        child.reflect();
        world.next_id = world.next_id + 1;
        let mut ips: Vec<IP> = Vec::new();
        let ghost parent = self@;
        ips.push(self);
        ips.push(child);
        assert(ip_views(ips@) =~= seq![parent, child@]);
        Exec::Done(ips, false)
    }

    /// `q`
    pub fn op_quit(self) -> (r: Exec)
        ensures
            forall|w: WorldState| #[trigger] r.outcome(w) == quit(self@),
    {
        let mut ip = self;
        match cell_to_i32(ip.pop1()) {
            Some(code) => Exec::Failed(FungeError::Quit(code)),
            None => Exec::Failed(FungeError::Casting),
        }
    }

    /// `(` and `)`
    pub fn op_fingerprint(self, world: &World) -> (r: Exec)
        ensures
            r.outcome(world@) == fingerprint(self@, world@),
    {
        let mut ip = self;
        let count = match cell_to_i32(ip.pop1()) {
            Some(n) => n,
            None => {
                return Exec::Failed(FungeError::Casting);
            },
        };
        let mut i: i32 = 0;
        while i < count
            invariant
                0 <= i,
                i <= count || (count < 0 && i == 0),
                ip@ == (IpState { toss: drop(self@.toss, 1 + i), ..self@ }),
            decreases count - i,
        {
            ip.pop1();
            proof {
                lemma_drop_more(self@.toss, 1 + i, 1);
            }
            i = i + 1;
        }
        ip.reflect();
        done(ip)
    }
}

/// `char::from_u32`: the character of a code point. Every number from 0 to
/// 0x10FFFF but the surrogates, 0xD800 to 0xDFFF, is one.
#[verifier::external_body]
fn char_from_u32(v: u32) -> (r: Option<char>)
    ensures
        r == (if v <= 0xD7FF || 0xE000 <= v <= 0x10FFFF {
            Some(v as char)
        } else {
            None::<char>
        }),
{
    char::from_u32(v)
}

/// The character whose code point the cell is.
pub fn char_of(v: i128) -> (r: Option<char>)
    ensures
        r == (if is_char(v) {
            Some(v as char)
        } else {
            None::<char>
        }),
{
    if 0 <= v && v <= 0x10FFFF {
        char_from_u32(v as u32)
    } else {
        None
    }
}

/// The position `(x, y)` taken from `offset`.
pub fn aim(offset: Pos, x: i128, y: i128) -> (r: Option<Pos>)
    ensures
        r == target(offset, x, y),
{
    match cell_to_isize(x) {
        None => None,
        Some(px) => match cell_to_isize(y) {
            None => None,
            Some(py) => match px.checked_add(offset.x) {
                None => None,
                Some(tx) => match py.checked_add(offset.y) {
                    None => None,
                    Some(ty) => Some(Pos { x: tx, y: ty }),
                },
            },
        },
    }
}

} // verus!
