//! What the instruction pointers of an engine share: funge-space and its
//! extent, the rules, the channels, and what the host has told the engine.

use vstd::prelude::*;
use crate::cell::valid_bits;
use crate::error::FungeError;
use crate::geometry::{Pos, Rect};
use crate::host::{answers, Answer, Reply};
use crate::io::IO;
use crate::rules::Rules;
use crate::space::{FungeSpace, SPACE};
use crate::text::{copy_chars, rows};

verus! {

/// A name and its value in the environment.
#[derive(Debug)]
pub struct Var {
    pub key: Vec<char>,
    pub value: Vec<char>,
}

/// The environment as pairs of texts.
pub open spec fn var_views(v: Seq<Var>) -> Seq<(Seq<char>, Seq<char>)> {
    Seq::new(v.len(), |i: int| (v[i].key@, v[i].value@))
}

#[derive(Debug)]
pub struct World {
    /// The width of a cell, in bits.
    pub bits: u32,
    pub rules: Rules,
    /// The wrap boundary: every cell outside of it holds a space.
    pub extent: Rect,
    pub code: FungeSpace,
    /// The input tokens not yet read, the next one last.
    pub input: IO,
    /// What the program has written.
    pub output: IO,
    /// The host's answers that the running instruction has not used yet.
    pub replies: Vec<Reply>,
    /// The name of the program, for the system information.
    pub program: Vec<char>,
    /// The arguments of the program, for the system information.
    pub args: Vec<Vec<char>>,
    /// The environment, for the system information.
    pub vars: Vec<Var>,
    /// The character that parts the names of a path on this machine.
    pub separator: char,
    /// The id that the next new instruction pointer gets.
    pub next_id: usize,
}

/// `World`, as a mathematical value.
pub struct WorldState {
    pub bits: u32,
    pub rules: Rules,
    pub extent: Rect,
    pub space: Map<Pos, i128>,
    pub input: Seq<Seq<char>>,
    pub output: Seq<Seq<char>>,
    pub replies: Seq<Answer>,
    pub program: Seq<char>,
    pub args: Seq<Seq<char>>,
    pub vars: Seq<(Seq<char>, Seq<char>)>,
    pub separator: char,
    pub next_id: usize,
}

/// Whether every cell of column `x` from row `top` to above row `bottom`
/// holds a space.
pub open spec fn column_blank(space: Map<Pos, i128>, x: isize, top: isize, bottom: isize) -> bool {
    forall|y: isize| top <= y < bottom ==> #[trigger] space[Pos { x, y }] == SPACE
}

/// Whether every cell of row `y` from column `left` to before column `right`
/// holds a space.
pub open spec fn row_blank(space: Map<Pos, i128>, y: isize, left: isize, right: isize) -> bool {
    forall|x: isize| left <= x < right ==> #[trigger] space[Pos { x, y }] == SPACE
}

/// The first column from `x` to before `e.right` that is not blank between
/// the rows of `e`; `e.left` when there is none.
pub open spec fn first_column(space: Map<Pos, i128>, e: Rect, x: int) -> int
    decreases e.right - x,
{
    if x >= e.right {
        e.left as int
    } else if !column_blank(space, x as isize, e.top, e.bottom) {
        x
    } else {
        first_column(space, e, x + 1)
    }
}

/// One past the last column from `e.left` to before `x` that is not blank
/// between the rows of `e`; `e.right` when there is none.
pub open spec fn end_column(space: Map<Pos, i128>, e: Rect, x: int) -> int
    decreases x - e.left,
{
    if x <= e.left {
        e.right as int
    } else if !column_blank(space, (x - 1) as isize, e.top, e.bottom) {
        x
    } else {
        end_column(space, e, x - 1)
    }
}

/// The first row from `y` to above `e.bottom` that is not blank between the
/// columns of `e`; `e.top` when there is none.
pub open spec fn first_row(space: Map<Pos, i128>, e: Rect, y: int) -> int
    decreases e.bottom - y,
{
    if y >= e.bottom {
        e.top as int
    } else if !row_blank(space, y as isize, e.left, e.right) {
        y
    } else {
        first_row(space, e, y + 1)
    }
}

/// One past the last row from `e.top` to above `y` that is not blank between
/// the columns of `e`; `e.bottom` when there is none.
pub open spec fn end_row(space: Map<Pos, i128>, e: Rect, y: int) -> int
    decreases y - e.top,
{
    if y <= e.top {
        e.bottom as int
    } else if !row_blank(space, (y - 1) as isize, e.left, e.right) {
        y
    } else {
        end_row(space, e, y - 1)
    }
}

/// The extent drawn in to the cells that hold no space: first the left
/// edge, then the right, the top and the bottom, each within what the edges
/// before it left. An extent of spaces alone stays as it is.
pub open spec fn shrunk(space: Map<Pos, i128>, e: Rect) -> Rect {
    let e1 = Rect { left: first_column(space, e, e.left as int) as isize, ..e };
    let e2 = Rect { right: end_column(space, e1, e1.right as int) as isize, ..e1 };
    let e3 = Rect { top: first_row(space, e2, e2.top as int) as isize, ..e2 };
    Rect { bottom: end_row(space, e3, e3.bottom as int) as isize, ..e3 }
}

/// The extent widened to hold `p`.
pub open spec fn grown(e: Rect, p: Pos) -> Rect {
    Rect {
        left: if p.x < e.left {
            p.x
        } else {
            e.left
        },
        right: if p.x < e.left {
            e.right
        } else if p.x >= e.right {
            (p.x + 1) as isize
        } else {
            e.right
        },
        top: if p.y < e.top {
            p.y
        } else {
            e.top
        },
        bottom: if p.y < e.top {
            e.bottom
        } else if p.y >= e.bottom {
            (p.y + 1) as isize
        } else {
            e.bottom
        },
    }
}

/// Whether `long` starts with `short`.
pub open spec fn starts(long: Seq<Seq<char>>, short: Seq<Seq<char>>) -> bool {
    short.len() <= long.len() && forall|i: int|
        #![trigger long[i]]
        #![trigger short[i]]
        0 <= i < short.len() ==> long[i] == short[i]
}

/// Every cell outside the extent holds a space.
pub open spec fn blank_outside(space: Map<Pos, i128>, e: Rect) -> bool {
    forall|p: Pos| !e.has(p) ==> #[trigger] space[p] == SPACE
}

impl WorldState {
    /// The width is one a cell can have, and the extent is a rectangle that
    /// encloses every cell that holds no space.
    pub open spec fn wf(self) -> bool {
        &&& valid_bits(self.bits)
        &&& self.extent.left <= self.extent.right
        &&& self.extent.top <= self.extent.bottom
        &&& blank_outside(self.space, self.extent)
    }

    /// Whether this world can come of `other` by steps: they agree in the
    /// width of a cell, the rules and what is known of the host; the output
    /// has only grown, and the input tokens have only been taken.
    pub open spec fn comes_of(self, other: WorldState) -> bool {
        &&& self.bits == other.bits
        &&& self.rules == other.rules
        &&& self.program == other.program
        &&& self.args == other.args
        &&& self.vars == other.vars
        &&& self.separator == other.separator
        &&& starts(self.output, other.output)
        &&& starts(other.input, self.input)
    }

    /// Whether a write of `op` at `p` can be enclosed by an extent.
    pub open spec fn can_hold(op: i128, p: Pos) -> bool {
        op == SPACE || (p.x < isize::MAX && p.y < isize::MAX)
    }

    /// The world after a write of `op` at `p`: a space draws the extent in,
    /// anything else widens it to hold `p`.
    pub open spec fn written(self, op: i128, p: Pos) -> WorldState {
        let space = self.space.insert(p, op);
        WorldState {
            space,
            extent: if op == SPACE {
                shrunk(space, self.extent)
            } else {
                grown(self.extent, p)
            },
            ..self
        }
    }
}

impl View for World {
    type V = WorldState;

    open spec fn view(&self) -> WorldState {
        WorldState {
            bits: self.bits,
            rules: self.rules,
            extent: self.extent,
            space: self.code@,
            input: self.input@,
            output: self.output@,
            replies: answers(self.replies@),
            program: self.program@,
            args: rows(self.args@),
            vars: var_views(self.vars@),
            separator: self.separator,
            next_id: self.next_id,
        }
    }
}

pub proof fn lemma_first_column(space: Map<Pos, i128>, e: Rect, x: int)
    requires
        e.left <= x,
    ensures
        e.left <= first_column(space, e, x),
        first_column(space, e, x) <= e.right || first_column(space, e, x) == e.left,
        first_column(space, e, x) == e.left || x <= first_column(space, e, x) < e.right,
        forall|c: isize|
            x <= c < first_column(space, e, x) ==> #[trigger] column_blank(space, c, e.top, e.bottom),
    decreases e.right - x,
{
    if x < e.right && column_blank(space, x as isize, e.top, e.bottom) {
        lemma_first_column(space, e, x + 1);
    }
}

pub proof fn lemma_end_column(space: Map<Pos, i128>, e: Rect, x: int)
    requires
        x <= e.right,
    ensures
        end_column(space, e, x) <= e.right,
        end_column(space, e, x) == e.right || e.left < end_column(space, e, x) <= x,
        forall|c: isize|
            end_column(space, e, x) <= c < x ==> #[trigger] column_blank(space, c, e.top, e.bottom),
    decreases x - e.left,
{
    if x > e.left && column_blank(space, (x - 1) as isize, e.top, e.bottom) {
        lemma_end_column(space, e, x - 1);
    }
}

pub proof fn lemma_first_row(space: Map<Pos, i128>, e: Rect, y: int)
    requires
        e.top <= y,
    ensures
        e.top <= first_row(space, e, y),
        first_row(space, e, y) == e.top || y <= first_row(space, e, y) < e.bottom,
        forall|r: isize|
            y <= r < first_row(space, e, y) ==> #[trigger] row_blank(space, r, e.left, e.right),
    decreases e.bottom - y,
{
    if y < e.bottom && row_blank(space, y as isize, e.left, e.right) {
        lemma_first_row(space, e, y + 1);
    }
}

pub proof fn lemma_end_row(space: Map<Pos, i128>, e: Rect, y: int)
    requires
        y <= e.bottom,
    ensures
        end_row(space, e, y) <= e.bottom,
        end_row(space, e, y) == e.bottom || e.top < end_row(space, e, y) <= y,
        forall|r: isize|
            end_row(space, e, y) <= r < y ==> #[trigger] row_blank(space, r, e.left, e.right),
    decreases y - e.top,
{
    if y > e.top && row_blank(space, (y - 1) as isize, e.left, e.right) {
        lemma_end_row(space, e, y - 1);
    }
}

/// Drawing the extent in leaves it within what it was, and leaves every
/// cell outside of it a space.
pub proof fn lemma_shrunk(space: Map<Pos, i128>, e: Rect)
    requires
        blank_outside(space, e),
        e.left <= e.right,
        e.top <= e.bottom,
    ensures
        blank_outside(space, shrunk(space, e)),
        shrunk(space, e).left <= shrunk(space, e).right,
        shrunk(space, e).top <= shrunk(space, e).bottom,
        e.left <= shrunk(space, e).left,
        shrunk(space, e).right <= e.right,
        e.top <= shrunk(space, e).top,
        shrunk(space, e).bottom <= e.bottom,
{
    lemma_first_column(space, e, e.left as int);
    let e1 = Rect { left: first_column(space, e, e.left as int) as isize, ..e };
    lemma_end_column(space, e1, e1.right as int);
    let e2 = Rect { right: end_column(space, e1, e1.right as int) as isize, ..e1 };
    lemma_first_row(space, e2, e2.top as int);
    let e3 = Rect { top: first_row(space, e2, e2.top as int) as isize, ..e2 };
    lemma_end_row(space, e3, e3.bottom as int);
    let e4 = shrunk(space, e);
    assert forall|p: Pos| !e4.has(p) implies #[trigger] space[p] == SPACE by {
        if e.has(p) {
            if p.x < e1.left {
                assert(column_blank(space, p.x, e.top, e.bottom));
            } else if p.x >= e2.right {
                assert(column_blank(space, p.x, e1.top, e1.bottom));
            } else if p.y < e3.top {
                assert(row_blank(space, p.y, e2.left, e2.right));
            } else {
                assert(row_blank(space, p.y, e3.left, e3.right));
            }
            assert(space[Pos { x: p.x, y: p.y }] == SPACE);
        }
    }
}

impl World {
    /// The parts are well formed, and every cell outside the extent holds a
    /// space.
    pub open spec fn wf(&self) -> bool {
        &&& self.code.wf()
        &&& self@.wf()
    }

    fn column_is_blank(&self, x: isize) -> (b: bool)
        requires
            self.code.wf(),
        ensures
            b == column_blank(self@.space, x, self.extent.top, self.extent.bottom),
    {
        let mut y: isize = self.extent.top;
        while y < self.extent.bottom
            invariant
                self.code.wf(),
                self.extent.top <= y,
                forall|r: isize|
                    self.extent.top <= r < y ==> #[trigger] self@.space[Pos { x: x, y: r }] == SPACE,
            decreases self.extent.bottom - y,
        {
            if self.code.read(Pos { x, y }) != SPACE {
                return false;
            }
            y = y + 1;
        }
        true
    }

    fn row_is_blank(&self, y: isize) -> (b: bool)
        requires
            self.code.wf(),
        ensures
            b == row_blank(self@.space, y, self.extent.left, self.extent.right),
    {
        let mut x: isize = self.extent.left;
        while x < self.extent.right
            invariant
                self.code.wf(),
                self.extent.left <= x,
                forall|c: isize|
                    self.extent.left <= c < x ==> #[trigger] self@.space[Pos { x: c, y: y }] == SPACE,
            decreases self.extent.right - x,
        {
            if self.code.read(Pos { x, y }) != SPACE {
                return false;
            }
            x = x + 1;
        }
        true
    }

    /// Draws the extent in to the cells that hold no space.
    pub fn shrink_extent(&mut self)
        requires
            old(self).wf(),
        ensures
            final(self).wf(),
            final(self)@ == (WorldState {
                extent: shrunk(old(self)@.space, old(self).extent),
                ..old(self)@
            }),
    {
        let ghost space = self@.space;
        let ghost e = self.extent;
        proof {
            lemma_shrunk(space, e);
            lemma_first_column(space, e, e.left as int);
        }
        let mut x: isize = self.extent.left;
        while x < self.extent.right && self.column_is_blank(x)
            invariant
                self.code.wf(),
                self@ == old(self)@,
                self.extent == e,
                space == self@.space,
                e.left <= x,
                first_column(space, e, e.left as int) == first_column(space, e, x as int),
            decreases self.extent.right - x,
        {
            x = x + 1;
        }
        if x < self.extent.right {
            self.extent.left = x;
        }
        let ghost e1 = self.extent;
        proof {
            lemma_end_column(space, e1, e1.right as int);
        }
        let mut x: isize = self.extent.right;
        while x > self.extent.left && self.column_is_blank(x - 1)
            invariant
                self.code.wf(),
                self@ == (WorldState { extent: e1, ..old(self)@ }),
                self.extent == e1,
                space == self@.space,
                x <= e1.right,
                end_column(space, e1, e1.right as int) == end_column(space, e1, x as int),
            decreases x - self.extent.left,
        {
            x = x - 1;
        }
        if x > self.extent.left {
            self.extent.right = x;
        }
        let ghost e2 = self.extent;
        proof {
            lemma_first_row(space, e2, e2.top as int);
        }
        let mut y: isize = self.extent.top;
        while y < self.extent.bottom && self.row_is_blank(y)
            invariant
                self.code.wf(),
                self@ == (WorldState { extent: e2, ..old(self)@ }),
                self.extent == e2,
                space == self@.space,
                e2.top <= y,
                first_row(space, e2, e2.top as int) == first_row(space, e2, y as int),
            decreases self.extent.bottom - y,
        {
            y = y + 1;
        }
        if y < self.extent.bottom {
            self.extent.top = y;
        }
        let ghost e3 = self.extent;
        proof {
            lemma_end_row(space, e3, e3.bottom as int);
        }
        let mut y: isize = self.extent.bottom;
        while y > self.extent.top && self.row_is_blank(y - 1)
            invariant
                self.code.wf(),
                self@ == (WorldState { extent: e3, ..old(self)@ }),
                self.extent == e3,
                space == self@.space,
                y <= e3.bottom,
                end_row(space, e3, e3.bottom as int) == end_row(space, e3, y as int),
            decreases y - self.extent.top,
        {
            y = y - 1;
        }
        if y > self.extent.top {
            self.extent.bottom = y;
        }
    }

    /// Widens the extent to hold `position`.
    pub fn grow_extent(&mut self, position: Pos)
        requires
            position.x < isize::MAX,
            position.y < isize::MAX,
        ensures
            final(self)@ == (WorldState { extent: grown(old(self).extent, position), ..old(self)@ }),
            final(self).code == old(self).code,
    {
        if position.x < self.extent.left {
            self.extent.left = position.x;
        } else if position.x >= self.extent.right {
            self.extent.right = position.x + 1;
        }
        if position.y < self.extent.top {
            self.extent.top = position.y;
        } else if position.y >= self.extent.bottom {
            self.extent.bottom = position.y + 1;
        }
    }

    /// Writes `op` at `position` and adjusts the extent. A cell that is no
    /// space and lies on the last column or row a coordinate can name cannot
    /// be enclosed: it is refused, and nothing changes.
    pub fn insert(&mut self, op: i128, position: Pos) -> (r: Result<(), FungeError>)
        requires
            old(self).wf(),
        ensures
            final(self).wf(),
            WorldState::can_hold(op, position) ==> r is Ok && final(self)@ == old(self)@.written(
                op,
                position,
            ),
            !WorldState::can_hold(op, position) ==> r == Err::<(), FungeError>(FungeError::Casting)
                && final(self)@ == old(self)@,
    {
        if op == SPACE {
            self.code.put(position, op);
            proof {
                let space = self@.space;
                assert forall|p: Pos| !self.extent.has(p) implies #[trigger] space[p] == SPACE by {
                    assert(old(self)@.space[p] == SPACE);
                }
            }
            self.shrink_extent();
            Ok(())
        } else if position.x == isize::MAX || position.y == isize::MAX {
            Err(FungeError::Casting)
        } else {
            self.code.put(position, op);
            self.grow_extent(position);
            proof {
                let space = self@.space;
                let e = old(self).extent;
                assert(space == old(self)@.space.insert(position, op));
                assert(self.extent == grown(e, position));
                assert forall|p: Pos| !self.extent.has(p) implies #[trigger] space[p] == SPACE by {
                    assert(!e.has(p));
                    assert(p != position);
                    assert(old(self)@.space[p] == SPACE);
                }
            }
            Ok(())
        }
    }

    /// Reads the cell at `p`. Outside the extent it is a space.
    pub fn read(&self, p: Pos) -> (v: i128)
        requires
            self.wf(),
        ensures
            v == self@.space[p],
            !self.extent.has(p) ==> v == SPACE,
    {
        self.code.read(p)
    }

    /// Takes the host's next answer; `None` when there is none.
    pub fn take_reply(&mut self) -> (r: Option<Reply>)
        ensures
            old(self)@.replies.len() == 0 ==> r is None && final(self)@ == old(self)@,
            old(self)@.replies.len() > 0 ==> (r matches Some(reply) && reply@ == old(
                self,
            )@.replies[0] && final(self)@ == WorldState {
                replies: old(self)@.replies.drop_first(),
                ..old(self)@
            }),
            final(self).code == old(self).code,
    {
        if self.replies.len() == 0 {
            None
        } else {
            let reply = self.replies.remove(0);
            assert(answers(self.replies@) =~= old(self)@.replies.drop_first());
            Some(reply)
        }
    }

    /// A world that is the same in everything.
    pub fn duplicate(&self) -> (w: Self)
        requires
            self.wf(),
        ensures
            w.wf(),
            w@ == self@,
    {
        let mut replies: Vec<Reply> = Vec::new();
        let mut i: usize = 0;
        while i < self.replies.len()
            invariant
                i <= self.replies.len(),
                replies.len() == i,
                forall|j: int| 0 <= j < i ==> (#[trigger] replies@[j])@ == self.replies@[j]@,
            decreases self.replies.len() - i,
        {
            replies.push(self.replies[i].duplicate());
            i = i + 1;
        }
        assert(answers(replies@) =~= answers(self.replies@));
        let mut args: Vec<Vec<char>> = Vec::new();
        let mut i: usize = 0;
        while i < self.args.len()
            invariant
                i <= self.args.len(),
                args.len() == i,
                forall|j: int| 0 <= j < i ==> (#[trigger] args@[j])@ == self.args@[j]@,
            decreases self.args.len() - i,
        {
            args.push(copy_chars(&self.args[i]));
            i = i + 1;
        }
        assert(rows(args@) =~= rows(self.args@));
        let mut vars: Vec<Var> = Vec::new();
        let mut i: usize = 0;
        while i < self.vars.len()
            invariant
                i <= self.vars.len(),
                vars.len() == i,
                forall|j: int|
                    0 <= j < i ==> (#[trigger] vars@[j]).key@ == self.vars@[j].key@ && vars@[j].value@
                        == self.vars@[j].value@,
            decreases self.vars.len() - i,
        {
            vars.push(
                Var { key: copy_chars(&self.vars[i].key), value: copy_chars(&self.vars[i].value) },
            );
            i = i + 1;
        }
        assert(var_views(vars@) =~= var_views(self.vars@));
        World {
            bits: self.bits,
            rules: self.rules,
            extent: self.extent,
            code: self.code.duplicate(),
            input: self.input.duplicate(),
            output: self.output.duplicate(),
            replies,
            program: copy_chars(&self.program),
            args,
            vars,
            separator: self.separator,
            next_id: self.next_id,
        }
    }
}

} // verus!
