//! The instruction pointer and its motion through funge-space.

use vstd::prelude::*;
use crate::error::FungeError;
use crate::geometry::{Pos, Rect};
use crate::space::SPACE;
use crate::stack::StackStack;
use crate::world::{World, WorldState};

verus! {

/// The value of `;`, which opens and closes a comment.
pub const SEMICOLON: i128 = 59;

/// An instruction pointer.
#[derive(Debug)]
pub struct IP {
    /// Its identity: 0 for the first one, and for each new one a number that
    /// no other has had.
    pub id: usize,
    /// The cell it is at.
    pub position: Pos,
    /// The step it moves by.
    pub delta: Pos,
    /// What is added to the coordinates that `g` and `p` are given.
    pub offset: Pos,
    /// Whether it is in stringmode.
    pub string: bool,
    pub stack: StackStack,
    /// The opcodes bound by fingerprints; none are implemented.
    pub fingerprint_ops: Vec<i128>,
}

/// `IP`, as a mathematical value.
pub struct IpState {
    pub id: usize,
    pub position: Pos,
    pub delta: Pos,
    pub offset: Pos,
    pub string_mode: bool,
    /// The top stack, bottom cell first.
    pub toss: Seq<i128>,
    /// The stacks under the top stack, bottom stack first.
    pub lower: Seq<Seq<i128>>,
    pub fingerprints: Seq<i128>,
}

impl View for IP {
    type V = IpState;

    open spec fn view(&self) -> IpState {
        IpState {
            id: self.id,
            position: self.position,
            delta: self.delta,
            offset: self.offset,
            string_mode: self.string,
            toss: self.stack.toss(),
            lower: self.stack.under(),
            fingerprints: self.fingerprint_ops@,
        }
    }
}

/// The states of a vector of instruction pointers.
pub open spec fn ip_views(v: Seq<IP>) -> Seq<IpState> {
    Seq::new(v.len(), |i: int| v[i]@)
}

/// `-v`, but the least integer, which has no negative, stays itself.
pub open spec fn neg(v: isize) -> isize {
    if v == isize::MIN {
        v
    } else {
        (-v) as isize
    }
}

/// The step turned around.
pub open spec fn reflected(d: Pos) -> Pos {
    Pos { x: neg(d.x), y: neg(d.y) }
}

/// The step turned left: `(dx, dy)` becomes `(dy, -dx)`.
pub open spec fn left_of(d: Pos) -> Pos {
    Pos { x: d.y, y: neg(d.x) }
}

/// The step turned right: `(dx, dy)` becomes `(-dy, dx)`.
pub open spec fn right_of(d: Pos) -> Pos {
    Pos { x: neg(d.y), y: d.x }
}

/// `p + d`, where both coordinates fit the machine integer.
pub open spec fn shifted(p: Pos, d: Pos) -> Option<Pos> {
    if isize::MIN <= p.x + d.x <= isize::MAX && isize::MIN <= p.y + d.y <= isize::MAX {
        Some(Pos { x: (p.x + d.x) as isize, y: (p.y + d.y) as isize })
    } else {
        None
    }
}

/// How far `p` is from the edge of `e` that a walk against `d` leaves by.
pub open spec fn back_room(p: Pos, d: Pos, e: Rect) -> int {
    if d.x > 0 {
        p.x - e.left
    } else if d.x < 0 {
        e.right - 1 - p.x
    } else if d.y > 0 {
        p.y - e.top
    } else {
        e.bottom - 1 - p.y
    }
}

/// The last cell of the walk from `p` by `-d` that stays inside `e`: `p`
/// itself when the first step back is outside already.
pub open spec fn farthest_back(p: Pos, d: Pos, e: Rect) -> Pos
    decreases back_room(p, d, e),
{
    if (d.x != 0 || d.y != 0) && e.holds(p.x - d.x, p.y - d.y) {
        farthest_back(Pos { x: (p.x - d.x) as isize, y: (p.y - d.y) as isize }, d, e)
    } else {
        p
    }
}

/// One move. From inside the extent it is a step by `d`, which may lead
/// outside. From outside it wraps: the pointer lands on the last cell of
/// the walk against `d` that stays inside the extent. `None` when the step
/// leaves the coordinates a machine integer can hold.
pub open spec fn next_pos_of(p: Pos, d: Pos, e: Rect) -> Option<Pos> {
    if e.has(p) {
        shifted(p, d)
    } else {
        Some(farthest_back(p, d, e))
    }
}

/// The width and the height of `e` together.
pub open spec fn span(e: Rect) -> nat {
    ((if e.right > e.left {
        e.right - e.left
    } else {
        0
    }) + (if e.bottom > e.top {
        e.bottom - e.top
    } else {
        0
    })) as nat
}

/// The number of moves after which a search has seen every cell of its
/// path twice, and is given up.
pub open spec fn patience(e: Rect) -> nat {
    2 * span(e) + 8
}

/// The search for the next instruction from `p`: spaces are passed over,
/// and so is what stands from one `;` to the next. `Stuck` when `fuel` moves
/// were not enough, `Casting` when a move leaves the coordinates.
pub open spec fn seek(
    space: Map<Pos, i128>,
    e: Rect,
    p: Pos,
    d: Pos,
    in_comment: bool,
    fuel: nat,
) -> Result<Pos, FungeError>
    decreases fuel,
{
    if fuel == 0 {
        Err(FungeError::Stuck)
    } else if !in_comment && space[p] != SEMICOLON && space[p] != SPACE {
        Ok(p)
    } else {
        match next_pos_of(p, d, e) {
            None => Err(FungeError::Casting),
            Some(q) => seek(
                space,
                e,
                q,
                d,
                if in_comment {
                    space[p] != SEMICOLON
                } else {
                    space[p] == SEMICOLON
                },
                (fuel - 1) as nat,
            ),
        }
    }
}

/// The search for the next cell from `p` that holds no space.
pub open spec fn pass_spaces(space: Map<Pos, i128>, e: Rect, p: Pos, d: Pos, fuel: nat) -> Result<
    Pos,
    FungeError,
>
    decreases fuel,
{
    if fuel == 0 {
        Err(FungeError::Stuck)
    } else if space[p] != SPACE {
        Ok(p)
    } else {
        match next_pos_of(p, d, e) {
            None => Err(FungeError::Casting),
            Some(q) => pass_spaces(space, e, q, d, (fuel - 1) as nat),
        }
    }
}

/// Where the pointer goes after an instruction. In stringmode: from a space
/// to the next cell that holds none, so that a run of spaces counts once; from
/// anything else one move. Otherwise: one move, unless the pointer stands
/// on a `;` and `skip` is not set, and then on to the next instruction.
pub open spec fn next_valid_of(ip: IpState, w: WorldState, skip: bool) -> Result<Pos, FungeError> {
    if ip.string_mode {
        if w.space[ip.position] == SPACE {
            pass_spaces(w.space, w.extent, ip.position, ip.delta, patience(w.extent))
        } else {
            match next_pos_of(ip.position, ip.delta, w.extent) {
                None => Err(FungeError::Casting),
                Some(q) => Ok(q),
            }
        }
    } else if w.space[ip.position] != SEMICOLON || skip {
        match next_pos_of(ip.position, ip.delta, w.extent) {
            None => Err(FungeError::Casting),
            Some(q) => seek(w.space, w.extent, q, ip.delta, false, patience(w.extent)),
        }
    } else {
        seek(w.space, w.extent, ip.position, ip.delta, false, patience(w.extent))
    }
}

/// The pointer moved to where it goes after an instruction.
pub open spec fn advanced(ip: IpState, w: WorldState, skip: bool) -> Result<IpState, FungeError> {
    match next_valid_of(ip, w, skip) {
        Ok(p) => Ok(IpState { position: p, ..ip }),
        Err(e) => Err(e),
    }
}

/// A search ends on a cell that holds an instruction, and such a cell lies
/// inside the extent.
pub proof fn lemma_seek_lands(
    space: Map<Pos, i128>,
    e: Rect,
    p: Pos,
    d: Pos,
    in_comment: bool,
    fuel: nat,
)
    requires
        crate::world::blank_outside(space, e),
    ensures
        seek(space, e, p, d, in_comment, fuel) matches Ok(q) ==> e.has(q) && space[q] != SPACE
            && space[q] != SEMICOLON,
    decreases fuel,
{
    if fuel > 0 && (in_comment || space[p] == SEMICOLON || space[p] == SPACE) {
        match next_pos_of(p, d, e) {
            None => {},
            Some(q) => {
                lemma_seek_lands(
                    space,
                    e,
                    q,
                    d,
                    if in_comment {
                        space[p] != SEMICOLON
                    } else {
                        space[p] == SEMICOLON
                    },
                    (fuel - 1) as nat,
                );
            },
        }
    }
}

/// A pass over spaces ends on a cell that holds none, inside the extent.
pub proof fn lemma_pass_lands(space: Map<Pos, i128>, e: Rect, p: Pos, d: Pos, fuel: nat)
    requires
        crate::world::blank_outside(space, e),
    ensures
        pass_spaces(space, e, p, d, fuel) matches Ok(q) ==> e.has(q) && space[q] != SPACE,
    decreases fuel,
{
    if fuel > 0 && space[p] == SPACE {
        match next_pos_of(p, d, e) {
            None => {},
            Some(q) => {
                lemma_pass_lands(space, e, q, d, (fuel - 1) as nat);
            },
        }
    }
}

fn negate(v: isize) -> (r: isize)
    ensures
        r == neg(v),
{
    if v == isize::MIN {
        v
    } else {
        -v
    }
}

fn shift(p: Pos, d: Pos) -> (r: Option<Pos>)
    ensures
        r == shifted(p, d),
{
    match p.x.checked_add(d.x) {
        None => None,
        Some(x) => match p.y.checked_add(d.y) {
            None => None,
            Some(y) => Some(Pos { x, y }),
        },
    }
}

/// The cell one step against `d` from `p`, when it lies inside `e`.
fn step_back(p: Pos, d: Pos, e: &Rect) -> (r: Option<Pos>)
    ensures
        e.holds(p.x - d.x, p.y - d.y) ==> r == Some(
            Pos { x: (p.x - d.x) as isize, y: (p.y - d.y) as isize },
        ),
        !e.holds(p.x - d.x, p.y - d.y) ==> r is None,
{
    match p.x.checked_sub(d.x) {
        None => None,
        Some(x) => match p.y.checked_sub(d.y) {
            None => None,
            Some(y) => {
                let q = Pos { x, y };
                if e.contains_pos(q) {
                    Some(q)
                } else {
                    None
                }
            },
        },
    }
}

/// The number of moves a search is given.
fn budget(e: &Rect) -> (n: u128)
    ensures
        n == patience(*e),
{
    let w: u128 = if e.right > e.left {
        (e.right as i128 - e.left as i128) as u128
    } else {
        0
    };
    let h: u128 = if e.bottom > e.top {
        (e.bottom as i128 - e.top as i128) as u128
    } else {
        0
    };
    2 * (w + h) + 8
}

impl IP {
    /// An instruction pointer with the state of this one and the id `id`.
    pub fn split(&self, id: usize) -> (ip: Self)
        ensures
            ip@ == (IpState { id, ..self@ }),
    {
        let mut table: Vec<i128> = Vec::new();
        let mut i: usize = 0;
        while i < self.fingerprint_ops.len()
            invariant
                i <= self.fingerprint_ops.len(),
                table@ == self.fingerprint_ops@.take(i as int),
            decreases self.fingerprint_ops.len() - i,
        {
            table.push(self.fingerprint_ops[i]);
            i = i + 1;
            assert(self.fingerprint_ops@.take(i as int) == self.fingerprint_ops@.take(i - 1).push(
                self.fingerprint_ops@[i - 1],
            ));
        }
        assert(self.fingerprint_ops@.take(self.fingerprint_ops.len() as int)
            == self.fingerprint_ops@);
        IP {
            id,
            position: self.position,
            delta: self.delta,
            offset: self.offset,
            string: self.string,
            stack: self.stack.duplicate(),
            fingerprint_ops: table,
        }
    }

    /// An instruction pointer in the same state.
    pub fn duplicate(&self) -> (ip: Self)
        ensures
            ip@ == self@,
    {
        self.split(self.id)
    }

    /// The cell the pointer is at.
    pub fn op(&self, world: &World) -> (v: i128)
        requires
            world.wf(),
        ensures
            v == world@.space[self.position],
    {
        self.op_at(world, self.position)
    }

    /// The cell at `pos`.
    pub fn op_at(&self, world: &World, pos: Pos) -> (v: i128)
        requires
            world.wf(),
        ensures
            v == world@.space[pos],
    {
        world.code.read(pos)
    }

    /// Turns the pointer around.
    pub fn reflect(&mut self)
        ensures
            final(self)@ == (IpState { delta: reflected(old(self).delta), ..old(self)@ }),
    {
        self.delta = Pos { x: negate(self.delta.x), y: negate(self.delta.y) };
    }

    /// Turns the pointer right.
    pub fn turn_right(&mut self)
        ensures
            final(self)@ == (IpState { delta: right_of(old(self).delta), ..old(self)@ }),
    {
        self.delta = Pos { x: negate(self.delta.y), y: self.delta.x };
    }

    /// Turns the pointer left.
    pub fn turn_left(&mut self)
        ensures
            final(self)@ == (IpState { delta: left_of(old(self).delta), ..old(self)@ }),
    {
        self.delta = Pos { x: self.delta.y, y: negate(self.delta.x) };
    }

    /// Whether `pos` lies inside the extent.
    pub fn check_pos(&self, pos: Pos, world: &World) -> (b: bool)
        ensures
            b == world.extent.has(pos),
    {
        world.extent.contains_pos(pos)
    }

    /// One move from `pos` by the pointer's delta.
    pub fn next_pos(&self, world: &World, pos: Pos) -> (r: Option<Pos>)
        ensures
            r == next_pos_of(pos, self.delta, world.extent),
    {
        let d = self.delta;
        if world.extent.contains_pos(pos) {
            shift(pos, d)
        } else if d.x == 0 && d.y == 0 {
            Some(pos)
        } else {
            let mut cur = pos;
            let mut prev = step_back(cur, d, &world.extent);
            while prev.is_some()
                invariant
                    d.x != 0 || d.y != 0,
                    d == self.delta,
                    farthest_back(pos, d, world.extent) == farthest_back(cur, d, world.extent),
                    world.extent.holds(cur.x - d.x, cur.y - d.y) ==> prev == Some(
                        Pos { x: (cur.x - d.x) as isize, y: (cur.y - d.y) as isize },
                    ),
                    !world.extent.holds(cur.x - d.x, cur.y - d.y) ==> prev is None,
                decreases back_room(cur, d, world.extent),
            {
                cur = prev.unwrap();
                prev = step_back(cur, d, &world.extent);
            }
            Some(cur)
        }
    }

    /// Moves the pointer once. `Casting` when the move leaves the
    /// coordinates a machine integer can hold; the pointer then stays.
    pub fn movep(&mut self, world: &World) -> (r: Result<(), FungeError>)
        ensures
            match next_pos_of(old(self).position, old(self).delta, world.extent) {
                Some(p) => r is Ok && final(self)@ == (IpState { position: p, ..old(self)@ }),
                None => r == Err::<(), FungeError>(FungeError::Casting) && final(self)@ == old(
                    self,
                )@,
            },
    {
        match self.next_pos(world, self.position) {
            Some(p) => {
                self.position = p;
                Ok(())
            },
            None => Err(FungeError::Casting),
        }
    }

    /// Where the pointer goes after an instruction.
    pub fn next_valid_pos(&self, world: &World, skip: bool) -> (r: Result<Pos, FungeError>)
        requires
            world.wf(),
        ensures
            r == next_valid_of(self@, world@, skip),
    {
        let fuel = budget(&world.extent);
        let here = self.op_at(world, self.position);
        if self.string {
            if here == SPACE {
                self.pass(world, self.position, fuel)
            } else {
                match self.next_pos(world, self.position) {
                    None => Err(FungeError::Casting),
                    Some(q) => Ok(q),
                }
            }
        } else if here != SEMICOLON || skip {
            match self.next_pos(world, self.position) {
                None => Err(FungeError::Casting),
                Some(q) => self.search(world, q, fuel),
            }
        } else {
            self.search(world, self.position, fuel)
        }
    }

    fn pass(&self, world: &World, from: Pos, fuel: u128) -> (r: Result<Pos, FungeError>)
        requires
            world.wf(),
        ensures
            r == pass_spaces(world@.space, world.extent, from, self.delta, fuel as nat),
    {
        let mut pos = from;
        let mut left = fuel;
        while left > 0
            invariant
                world.wf(),
                pass_spaces(world@.space, world.extent, from, self.delta, fuel as nat)
                    == pass_spaces(world@.space, world.extent, pos, self.delta, left as nat),
            decreases left,
        {
            if self.op_at(world, pos) != SPACE {
                return Ok(pos);
            }
            match self.next_pos(world, pos) {
                None => {
                    return Err(FungeError::Casting);
                },
                Some(q) => {
                    pos = q;
                },
            }
            left = left - 1;
        }
        Err(FungeError::Stuck)
    }

    fn search(&self, world: &World, from: Pos, fuel: u128) -> (r: Result<Pos, FungeError>)
        requires
            world.wf(),
        ensures
            r == seek(world@.space, world.extent, from, self.delta, false, fuel as nat),
    {
        let mut pos = from;
        let mut left = fuel;
        let mut in_comment = false;
        while left > 0
            invariant
                world.wf(),
                seek(world@.space, world.extent, from, self.delta, false, fuel as nat) == seek(
                    world@.space,
                    world.extent,
                    pos,
                    self.delta,
                    in_comment,
                    left as nat,
                ),
            decreases left,
        {
            let here = self.op_at(world, pos);
            if !in_comment && here != SEMICOLON && here != SPACE {
                return Ok(pos);
            }
            match self.next_pos(world, pos) {
                None => {
                    return Err(FungeError::Casting);
                },
                Some(q) => {
                    pos = q;
                },
            }
            in_comment = if in_comment {
                here != SEMICOLON
            } else {
                here == SEMICOLON
            };
            left = left - 1;
        }
        Err(FungeError::Stuck)
    }

    /// The instruction that comes after the one the pointer is at.
    pub fn next_op(&self, world: &World) -> (r: Result<i128, FungeError>)
        requires
            world.wf(),
        ensures
            match next_valid_of(self@, world@, false) {
                Ok(p) => r == Ok::<i128, FungeError>(world@.space[p]),
                Err(e) => r == Err::<i128, FungeError>(e),
            },
    {
        match self.next_valid_pos(world, false) {
            Ok(p) => Ok(world.code.read(p)),
            Err(e) => Err(e),
        }
    }

    /// Moves the pointer to where it goes after an instruction.
    pub fn advance(self, world: &World, skip: bool) -> (r: Result<Self, FungeError>)
        requires
            world.wf(),
        ensures
            match advanced(self@, world@, skip) {
                Ok(state) => r matches Ok(ip) && ip@ == state,
                Err(e) => r matches Err(f) && f == e,
            },
    {
        match self.next_valid_pos(world, skip) {
            Ok(p) => {
                let mut ip = self;
                ip.position = p;
                Ok(ip)
            },
            Err(e) => Err(e),
        }
    }

    /// The state of the first instruction pointer of a program: at the
    /// origin, heading right, with one empty stack.
    pub open spec fn first() -> IpState {
        IpState {
            id: 0,
            position: Pos { x: 0, y: 0 },
            delta: Pos { x: 1, y: 0 },
            offset: Pos { x: 0, y: 0 },
            string_mode: false,
            toss: Seq::empty(),
            lower: Seq::empty(),
            fingerprints: Seq::empty(),
        }
    }

    /// The instruction pointer that a program starts with. Where the origin
    /// holds a space or a `;` it has moved on to the first instruction.
    pub fn new(world: &World) -> (r: Result<Self, FungeError>)
        requires
            world.wf(),
        ensures
            match (if world@.space[Pos { x: 0, y: 0 }] == SPACE || world@.space[Pos { x: 0, y: 0 }]
                == SEMICOLON {
                advanced(Self::first(), world@, false)
            } else {
                Ok(Self::first())
            }) {
                Ok(state) => r matches Ok(ip) && ip@ == state,
                Err(e) => r matches Err(f) && f == e,
            },
    {
        let ip = IP {
            id: 0,
            position: Pos { x: 0, y: 0 },
            delta: Pos { x: 1, y: 0 },
            offset: Pos { x: 0, y: 0 },
            string: false,
            stack: StackStack::new(),
            fingerprint_ops: Vec::new(),
        };
        let here = ip.op(world);
        if here == SPACE || here == SEMICOLON {
            ip.advance(world, false)
        } else {
            Ok(ip)
        }
    }
}

} // verus!
