//! The stack of cells and the stack of stacks.

use vstd::prelude::*;

verus! {

/// The cell `depth` below the top of `s` (0 is the top); 0 below the bottom.
pub open spec fn peek(s: Seq<i128>, depth: int) -> i128 {
    if 0 <= depth < s.len() {
        s[s.len() - 1 - depth]
    } else {
        0
    }
}

/// `s` without its top `count` cells; empty when it has no more than that.
pub open spec fn drop(s: Seq<i128>, count: int) -> Seq<i128> {
    if count <= 0 {
        s
    } else if count >= s.len() {
        Seq::empty()
    } else {
        s.take(s.len() - count)
    }
}

/// The top `count` cells of `s`, bottom first, with zeros below them where
/// `s` is shorter.
pub open spec fn top_cells(s: Seq<i128>, count: nat) -> Seq<i128> {
    Seq::new(count, |i: int| peek(s, count - 1 - i))
}

/// `count` zeros.
pub open spec fn zeros(count: nat) -> Seq<i128> {
    Seq::new(count, |i: int| 0i128)
}

/// The top `count` cells of `s`, top first, with zeros where `s` is shorter.
pub open spec fn popped_cells(s: Seq<i128>, count: nat) -> Seq<i128> {
    Seq::new(count, |i: int| peek(s, i))
}

/// A stack of cells. Popping an empty stack yields zero.
#[derive(Debug)]
pub struct Stack {
    pub cells: Vec<i128>,
}

impl View for Stack {
    type V = Seq<i128>;

    open spec fn view(&self) -> Seq<i128> {
        self.cells@
    }
}

/// The contents of a vector of stacks, bottom stack first.
pub open spec fn stack_views(v: Seq<Stack>) -> Seq<Seq<i128>> {
    Seq::new(v.len(), |i: int| v[i]@)
}

impl Stack {
    pub fn new() -> (s: Self)
        ensures
            s@ == Seq::<i128>::empty(),
    {
        Stack { cells: Vec::new() }
    }

    /// Takes the top cell off; an empty stack stays empty and gives 0.
    pub fn pop(&mut self) -> (cell: i128)
        ensures
            cell == peek(old(self)@, 0),
            final(self)@ == drop(old(self)@, 1),
            old(self)@.len() == 0 ==> cell == 0 && final(self)@.len() == 0,
    {
        match self.cells.pop() {
            Some(value) => value,
            None => 0,
        }
    }

    pub fn push(&mut self, cell: i128)
        ensures
            final(self)@ == old(self)@.push(cell),
    {
        self.cells.push(cell);
    }

    /// Pushes the cells of `cells`, the first of them first.
    pub fn extend(&mut self, cells: &Vec<i128>)
        ensures
            final(self)@ == old(self)@ + cells@,
    {
        let mut i: usize = 0;
        while i < cells.len()
            invariant
                i <= cells.len(),
                self@ == old(self)@ + cells@.take(i as int),
            decreases cells.len() - i,
        {
            self.cells.push(cells[i]);
            i = i + 1;
            assert(cells@.take(i as int) == cells@.take(i - 1).push(cells@[i - 1]));
        }
        assert(cells@.take(cells.len() as int) == cells@);
    }

    pub fn len(&self) -> (n: usize)
        ensures
            n == self@.len(),
    {
        self.cells.len()
    }

    /// The cell `depth` below the top; 0 below the bottom.
    pub fn peek_at(&self, depth: usize) -> (cell: i128)
        ensures
            cell == peek(self@, depth as int),
    {
        if depth < self.cells.len() {
            self.cells[self.cells.len() - 1 - depth]
        } else {
            0
        }
    }

    /// A stack with the same cells.
    pub fn duplicate(&self) -> (s: Self)
        ensures
            s@ == self@,
    {
        let mut s = Stack::new();
        s.extend(&self.cells);
        s
    }
}

/// A stack of stacks. There is always a top stack; `lower` holds the stacks
/// below it, bottom first.
#[derive(Debug)]
pub struct StackStack {
    pub lower: Vec<Stack>,
    pub top: Stack,
}

impl StackStack {
    /// The top stack.
    pub open spec fn toss(&self) -> Seq<i128> {
        self.top@
    }

    /// The stacks below the top stack, bottom first.
    pub open spec fn under(&self) -> Seq<Seq<i128>> {
        stack_views(self.lower@)
    }

    /// One empty stack.
    pub fn new() -> (s: Self)
        ensures
            s.toss() == Seq::<i128>::empty(),
            s.under() == Seq::<Seq<i128>>::empty(),
    {
        let s = StackStack { lower: Vec::new(), top: Stack::new() };
        assert(s.under() =~= Seq::<Seq<i128>>::empty());
        s
    }

    /// There is always a top stack, so this changes nothing.
    pub fn check_stack(&mut self)
        ensures
            *final(self) == *old(self),
    {
    }

    /// Pops the top stack.
    pub fn pop(&mut self) -> (cell: i128)
        ensures
            cell == peek(old(self).toss(), 0),
            final(self).toss() == drop(old(self).toss(), 1),
            final(self).under() == old(self).under(),
            old(self).toss().len() == 0 ==> cell == 0 && final(self).toss().len() == 0,
    {
        self.top.pop()
    }

    /// Pushes onto the top stack.
    pub fn push(&mut self, cell: i128)
        ensures
            final(self).toss() == old(self).toss().push(cell),
            final(self).under() == old(self).under(),
    {
        self.top.push(cell);
    }

    /// Pushes the cells of `cells` onto the top stack, the first of them first.
    pub fn extend(&mut self, cells: &Vec<i128>)
        ensures
            final(self).toss() == old(self).toss() + cells@,
            final(self).under() == old(self).under(),
    {
        self.top.extend(cells);
    }

    /// Takes the top stack off and hands it out. The stack below becomes the
    /// top; when there is none, a new empty stack does.
    pub fn pop_stack(&mut self) -> (stack: Stack)
        ensures
            stack@ == old(self).toss(),
            old(self).under().len() > 0 ==> final(self).toss() == old(self).under().last()
                && final(self).under() == old(self).under().drop_last(),
            old(self).under().len() == 0 ==> final(self).toss() == Seq::<i128>::empty()
                && final(self).under() == old(self).under(),
    {
        let mut next = match self.lower.pop() {
            Some(s) => s,
            None => Stack::new(),
        };
        std::mem::swap(&mut self.top, &mut next);
        assert(self.under() =~= if old(self).under().len() > 0 {
            old(self).under().drop_last()
        } else {
            old(self).under()
        });
        next
    }

    /// Makes `stack` the top stack, above the one that was.
    pub fn push_stack(&mut self, stack: Stack)
        ensures
            final(self).toss() == stack@,
            final(self).under() == old(self).under().push(old(self).toss()),
    {
        let mut next = stack;
        std::mem::swap(&mut self.top, &mut next);
        self.lower.push(next);
        assert(self.under() =~= old(self).under().push(old(self).toss()));
    }

    /// The number of stacks.
    pub fn len_stack(&self) -> (n: usize)
        requires
            self.under().len() < usize::MAX,
        ensures
            n == self.under().len() + 1,
    {
        self.lower.len() + 1
    }

    /// The number of cells on the top stack.
    pub fn len(&self) -> (n: usize)
        ensures
            n == self.toss().len(),
    {
        self.top.len()
    }

    /// Whether there is no stack at all, which never holds.
    pub fn is_empty(&self) -> (b: bool)
        ensures
            !b,
    {
        false
    }

    /// Empties the top stack.
    pub fn clear(&mut self)
        ensures
            final(self).toss() == Seq::<i128>::empty(),
            final(self).under() == old(self).under(),
    {
        self.top = Stack::new();
    }

    /// A stack of stacks with the same cells.
    pub fn duplicate(&self) -> (s: Self)
        ensures
            s.toss() == self.toss(),
            s.under() == self.under(),
    {
        let mut lower: Vec<Stack> = Vec::new();
        let mut i: usize = 0;
        while i < self.lower.len()
            invariant
                i <= self.lower.len(),
                lower.len() == i,
                stack_views(lower@) == self.under().take(i as int),
            decreases self.lower.len() - i,
        {
            let copy = self.lower[i].duplicate();
            let ghost before = lower@;
            lower.push(copy);
            assert forall|j: int| 0 <= j < lower@.len() implies stack_views(lower@)[j]
                == self.under().take(i + 1)[j] by {
                if j < i {
                    assert(stack_views(before)[j] == self.under().take(i as int)[j]);
                }
            }
            i = i + 1;
            assert(stack_views(lower@) =~= self.under().take(i as int));
        }
        assert(self.under().take(self.lower.len() as int) == self.under());
        StackStack { lower, top: self.top.duplicate() }
    }
}

} // verus!
