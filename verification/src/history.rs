//! The undo history: what a step changed, so that it can be taken back.

use vstd::prelude::*;
use vstd::std_specs::iter::IteratorSpec;
use crate::engine::{Funge, FungeState, Halt};
use crate::geometry::{Pos, Rect};
use crate::host::{answers, Answer, Ask, Reply, Request};
use crate::ip::{ip_views, IpState, IP};
use crate::space::{key_of, lemma_key_injective, FungeSpace, SPACE};
use crate::text::{copy_chars, rows};
use crate::world::WorldState;

verus! {

/// The positions of the cells that the overlay of `space` holds: every
/// cell outside the loaded rows that is no space is among them.
fn overlay_cells(space: &FungeSpace) -> (r: Vec<Pos>)
    requires
        space.wf(),
    ensures
        forall|p: Pos| !space.orig_rect.has(p) && #[trigger] space.cell(p) != SPACE ==> r@.contains(p),
{
    broadcast use vstd::std_specs::hash::group_hash_axioms;

    let mut r: Vec<Pos> = Vec::new();
    for entry in it: space.new_code.iter()
        invariant
            forall|j: int| 0 <= j < it.index() ==> r@.contains((#[trigger] it.seq()[j]).1.0),
    {
        let ghost before = r@;
        r.push(entry.1.0);
        assert forall|j: int| 0 <= j < it.index() + 1 implies r@.contains(
            (#[trigger] it.seq()[j]).1.0,
        ) by {
            if j < it.index() {
                let k = choose|k: int| 0 <= k < before.len() && before[k] == it.seq()[j].1.0;
                assert(r@[k] == it.seq()[j].1.0);
            } else {
                assert(r@[before.len() as int] == entry.1.0);
            }
        }
    }
    assert forall|p: Pos| !space.orig_rect.has(p) && #[trigger] space.cell(p) != SPACE implies r@.contains(
        p,
    ) by {
        let k = key_of(p);
        let m = space.new_code@;
        assert(m.contains_key(k));
        let v = vstd::std_specs::hash::spec_hash_map_iter(&space.new_code).remaining();
        assert(v.contains((&k, &m[k])));
        let j = choose|j: int| 0 <= j < v.len() && v[j] == (&k, &m[k]);
        lemma_key_injective(m[k].0, p);
    }
    r
}

/// A cell that a step changed, and what it held before.
#[derive(Clone, Copy, Debug, PartialEq, Eq, Structural)]
pub struct Change {
    pub at: Pos,
    pub was: i128,
}

/// What one step changed.
#[derive(Debug)]
pub struct FungeDelta {
    /// The cells that changed, with what they held before.
    pub code: Vec<Change>,
    /// The extent before the step.
    pub extent: Rect,
    /// The pointers before the step.
    pub ips: Vec<IP>,
    /// The pointers that had yet to run in a waiting tick, the next one
    /// last.
    pub todo: Vec<IP>,
    /// The number of texts that the step appended to the output.
    pub output: usize,
    /// The input tokens that the step took, the one it took last first.
    pub input: Vec<Vec<char>>,
    /// The host's answers that were not yet used before the step.
    pub replies: Vec<Reply>,
    /// What the host was asked before the step.
    pub pending: Option<Request>,
    /// The next id before the step.
    pub next_id: usize,
    /// The step counter before the step.
    pub steps: isize,
}

/// `FungeDelta`, as a mathematical value.
pub struct DeltaState {
    pub code: Seq<Change>,
    pub extent: Rect,
    pub ips: Seq<IpState>,
    pub todo: Seq<IpState>,
    pub output: nat,
    pub input: Seq<Seq<char>>,
    pub replies: Seq<Answer>,
    pub pending: Option<Ask>,
    pub next_id: usize,
    pub steps: isize,
}

impl View for FungeDelta {
    type V = DeltaState;

    open spec fn view(&self) -> DeltaState {
        DeltaState {
            code: self.code@,
            extent: self.extent,
            ips: ip_views(self.ips@),
            todo: ip_views(self.todo@).reverse(),
            output: self.output as nat,
            input: rows(self.input@),
            replies: answers(self.replies@),
            pending: match self.pending {
                Some(request) => Some(request@),
                None => None,
            },
            next_id: self.next_id,
            steps: self.steps,
        }
    }
}

/// The deltas of a vector.
pub open spec fn delta_views(v: Seq<FungeDelta>) -> Seq<DeltaState> {
    Seq::new(v.len(), |i: int| v[i]@)
}

/// `space` with the first `upto` changes taken back.
pub open spec fn patched(space: Map<Pos, i128>, changes: Seq<Change>, upto: nat) -> Map<Pos, i128>
    decreases upto,
{
    if upto == 0 {
        space
    } else {
        patched(space, changes, (upto - 1) as nat).insert(
            changes[upto - 1].at,
            changes[upto - 1].was,
        )
    }
}

/// The state with a step taken back: the changed cells hold what they
/// held, the pointers, the extent, the answers, the request, the next id and
/// the step counter are those from before the step, the output has lost what
/// the step appended, and the input has the tokens back that the step took.
pub open spec fn undone(cur: FungeState, d: DeltaState) -> FungeState {
    FungeState {
        world: WorldState {
            space: patched(cur.world.space, d.code, d.code.len()),
            extent: d.extent,
            input: cur.world.input + d.input,
            output: if d.output <= cur.world.output.len() {
                cur.world.output.take(cur.world.output.len() - d.output)
            } else {
                Seq::empty()
            },
            replies: d.replies,
            next_id: d.next_id,
            ..cur.world
        },
        ips: d.ips,
        todo: d.todo,
        steps: d.steps,
        pending: d.pending,
    }
}

/// Whether a change at `p` is among `changes`.
pub open spec fn recorded(changes: Seq<Change>, p: Pos) -> bool {
    exists|i: int| 0 <= i < changes.len() && (#[trigger] changes[i]).at == p
}

/// Whether each change holds what `old` held at its cell.
pub open spec fn faithful(changes: Seq<Change>, old: Map<Pos, i128>) -> bool {
    forall|i: int| 0 <= i < changes.len() ==> (#[trigger] changes[i]).was == old[changes[i].at]
}

/// Whether each change is at a cell that the two spaces differ in.
pub open spec fn genuine(changes: Seq<Change>, old: Map<Pos, i128>, new: Map<Pos, i128>) -> bool {
    forall|i: int| 0 <= i < changes.len() ==> old[(#[trigger] changes[i]).at] != new[changes[i].at]
}

impl DeltaState {
    /// Whether the delta tells how `new` came of `old`: it holds the cells
    /// that differ, and only those, each with what it held in `old`; the
    /// extent, the pointers, the answers, the request, the next id and the
    /// step counter of `old`; the number of texts that the output has grown by;
    /// and the input tokens that `old` has and `new` has no more.
    pub open spec fn tells(self, old: FungeState, new: FungeState) -> bool {
        &&& faithful(self.code, old.world.space)
        &&& genuine(self.code, old.world.space, new.world.space)
        &&& forall|p: Pos| old.world.space[p] != new.world.space[p] ==> recorded(self.code, p)
        &&& self.extent == old.world.extent
        &&& self.ips == old.ips
        &&& self.todo == old.todo
        &&& self.output == new.world.output.len() - old.world.output.len()
        &&& self.input == old.world.input.skip(new.world.input.len() as int)
        &&& self.replies == old.world.replies
        &&& self.pending == old.pending
        &&& self.next_id == old.world.next_id
        &&& self.steps == old.steps
    }
}

/// Taking back changes that hold the old cells gives the old cell where
/// one is recorded, and leaves the others.
pub proof fn lemma_patched(space: Map<Pos, i128>, old: Map<Pos, i128>, changes: Seq<Change>, upto: nat)
    requires
        faithful(changes, old),
        upto <= changes.len(),
    ensures
        forall|p: Pos|
            #[trigger] patched(space, changes, upto)[p] == (if recorded(changes.take(upto as int), p) {
                old[p]
            } else {
                space[p]
            }),
        patched(space, changes, upto).dom() == space.dom().union(
            Set::new(|p: Pos| recorded(changes.take(upto as int), p)),
        ),
    decreases upto,
{
    if upto > 0 {
        lemma_patched(space, old, changes, (upto - 1) as nat);
        let before = changes.take(upto - 1);
        let now = changes.take(upto as int);
        let last = changes[upto - 1];
        assert forall|p: Pos| recorded(now, p) == (recorded(before, p) || last.at == p) by {
            if recorded(before, p) {
                let i = choose|i: int| 0 <= i < before.len() && (#[trigger] before[i]).at == p;
                assert(now[i].at == p);
            }
            if last.at == p {
                assert(now[upto - 1].at == p);
            }
            if recorded(now, p) {
                let i = choose|i: int| 0 <= i < now.len() && (#[trigger] now[i]).at == p;
                if i < upto - 1 {
                    assert(before[i].at == p);
                }
            }
        }
        assert(patched(space, changes, upto).dom() =~= space.dom().union(
            Set::new(|p: Pos| recorded(now, p)),
        ));
    } else {
        assert(patched(space, changes, upto).dom() =~= space.dom().union(
            Set::new(|p: Pos| recorded(changes.take(0), p)),
        ));
    }
}

/// Notes the cell at `p` among the changes where the two spaces differ in
/// it.
fn note(changes: &mut Vec<Change>, prior: &FungeSpace, next: &FungeSpace, p: Pos)
    requires
        prior.wf(),
        next.wf(),
        faithful(old(changes)@, prior@),
        genuine(old(changes)@, prior@, next@),
    ensures
        faithful(final(changes)@, prior@),
        genuine(final(changes)@, prior@, next@),
        forall|q: Pos| recorded(old(changes)@, q) ==> recorded(final(changes)@, q),
        prior@[p] != next@[p] ==> recorded(final(changes)@, p),
{
    let was = prior.read(p);
    if was != next.read(p) {
        let ghost before = changes@;
        changes.push(Change { at: p, was });
        assert(changes@[before.len() as int].at == p);
        assert forall|q: Pos| recorded(before, q) implies recorded(changes@, q) by {
            let i = choose|i: int| 0 <= i < before.len() && (#[trigger] before[i]).at == q;
            assert(changes@[i].at == q);
        }
    }
}

/// Notes the cells of the loaded rows of `probe` where the two spaces
/// differ.
fn note_rows(changes: &mut Vec<Change>, prior: &FungeSpace, next: &FungeSpace, probe: &Rect)
    requires
        prior.wf(),
        next.wf(),
        faithful(old(changes)@, prior@),
        genuine(old(changes)@, prior@, next@),
    ensures
        faithful(final(changes)@, prior@),
        genuine(final(changes)@, prior@, next@),
        forall|q: Pos| recorded(old(changes)@, q) ==> recorded(final(changes)@, q),
        forall|q: Pos| probe.has(q) && prior@[q] != next@[q] ==> recorded(final(changes)@, q),
{
    let mut y: isize = probe.top;
    while y < probe.bottom
        invariant
            prior.wf(),
            next.wf(),
            probe.top <= y,
            faithful(changes@, prior@),
            genuine(changes@, prior@, next@),
            forall|q: Pos| recorded(old(changes)@, q) ==> recorded(changes@, q),
            forall|q: Pos|
                probe.has(q) && q.y < y && prior@[q] != next@[q] ==> recorded(changes@, q),
        decreases probe.bottom - y,
    {
        let mut x: isize = probe.left;
        while x < probe.right
            invariant
                prior.wf(),
                next.wf(),
                probe.left <= x,
                probe.top <= y < probe.bottom,
                faithful(changes@, prior@),
                genuine(changes@, prior@, next@),
                forall|q: Pos| recorded(old(changes)@, q) ==> recorded(changes@, q),
                forall|q: Pos|
                    probe.has(q) && (q.y < y || (q.y == y && q.x < x)) && prior@[q] != next@[q]
                        ==> recorded(changes@, q),
            decreases probe.right - x,
        {
            note(changes, prior, next, Pos { x, y });
            x = x + 1;
        }
        y = y + 1;
    }
}

/// Notes the cells of `cells` where the two spaces differ.
fn note_cells(changes: &mut Vec<Change>, prior: &FungeSpace, next: &FungeSpace, cells: &Vec<Pos>)
    requires
        prior.wf(),
        next.wf(),
        faithful(old(changes)@, prior@),
        genuine(old(changes)@, prior@, next@),
    ensures
        faithful(final(changes)@, prior@),
        genuine(final(changes)@, prior@, next@),
        forall|q: Pos| recorded(old(changes)@, q) ==> recorded(final(changes)@, q),
        forall|q: Pos| cells@.contains(q) && prior@[q] != next@[q] ==> recorded(final(changes)@, q),
{
    let mut i: usize = 0;
    while i < cells.len()
        invariant
            prior.wf(),
            next.wf(),
            i <= cells.len(),
            faithful(changes@, prior@),
            genuine(changes@, prior@, next@),
            forall|q: Pos| recorded(old(changes)@, q) ==> recorded(changes@, q),
            forall|k: int|
                0 <= k < i && prior@[#[trigger] cells@[k]] != next@[cells@[k]] ==> recorded(
                    changes@,
                    cells@[k],
                ),
        decreases cells.len() - i,
    {
        note(changes, prior, next, cells[i]);
        i = i + 1;
    }
}

/// The cells in which the two spaces differ, each with what `old` holds.
pub fn changed_cells(prior: &FungeSpace, next: &FungeSpace) -> (changes: Vec<Change>)
    requires
        prior.wf(),
        next.wf(),
    ensures
        faithful(changes@, prior@),
        genuine(changes@, prior@, next@),
        forall|q: Pos| prior@[q] != next@[q] ==> recorded(changes@, q),
        patched(next@, changes@, changes@.len()) == prior@,
{
    let mut changes: Vec<Change> = Vec::new();
    note_rows(&mut changes, prior, next, &prior.orig_rect);
    if next.orig_rect.left != prior.orig_rect.left || next.orig_rect.right != prior.orig_rect.right
        || next.orig_rect.top != prior.orig_rect.top || next.orig_rect.bottom != prior.orig_rect.bottom {
        note_rows(&mut changes, prior, next, &next.orig_rect);
    }
    let old_cells = overlay_cells(prior);
    note_cells(&mut changes, prior, next, &old_cells);
    let new_cells = overlay_cells(next);
    note_cells(&mut changes, prior, next, &new_cells);
    proof {
        assert forall|q: Pos| prior@[q] != next@[q] implies recorded(changes@, q) by {
            if !prior.orig_rect.has(q) && !next.orig_rect.has(q) {
                if prior.cell(q) != SPACE {
                    assert(old_cells@.contains(q));
                } else {
                    assert(next.cell(q) != SPACE);
                    assert(new_cells@.contains(q));
                }
            }
        }
        lemma_patched(next@, prior@, changes@, changes@.len());
        assert(changes@.take(changes@.len() as int) == changes@);
        assert(patched(next@, changes@, changes@.len()) =~= prior@);
    }
    changes
}

/// Copies of the pointers.
pub fn duplicate_all(v: &Vec<IP>) -> (r: Vec<IP>)
    ensures
        ip_views(r@) == ip_views(v@),
{
    let mut r: Vec<IP> = Vec::new();
    let mut i: usize = 0;
    while i < v.len()
        invariant
            i <= v.len(),
            r@.len() == i,
            forall|k: int| 0 <= k < i ==> (#[trigger] r@[k])@ == v@[k]@,
        decreases v.len() - i,
    {
        r.push(v[i].duplicate());
        i = i + 1;
    }
    assert(ip_views(r@) =~= ip_views(v@));
    r
}

fn duplicate_replies(v: &Vec<Reply>) -> (r: Vec<Reply>)
    ensures
        answers(r@) == answers(v@),
{
    let mut r: Vec<Reply> = Vec::new();
    let mut i: usize = 0;
    while i < v.len()
        invariant
            i <= v.len(),
            r@.len() == i,
            forall|k: int| 0 <= k < i ==> (#[trigger] r@[k])@ == v@[k]@,
        decreases v.len() - i,
    {
        r.push(v[i].duplicate());
        i = i + 1;
    }
    assert(answers(r@) =~= answers(v@));
    r
}

fn duplicate_rows(v: &Vec<Vec<char>>, from: usize) -> (r: Vec<Vec<char>>)
    requires
        from <= v.len(),
    ensures
        rows(r@) == rows(v@).skip(from as int),
{
    let mut r: Vec<Vec<char>> = Vec::new();
    let mut i: usize = from;
    while i < v.len()
        invariant
            from <= i <= v.len(),
            r@.len() == i - from,
            forall|k: int| 0 <= k < i - from ==> (#[trigger] r@[k])@ == v@[from + k]@,
        decreases v.len() - i,
    {
        r.push(copy_chars(&v[i]));
        i = i + 1;
    }
    assert(rows(r@) =~= rows(v@).skip(from as int));
    r
}

impl Request {
    /// A request that asks the same.
    pub fn duplicate(&self) -> (r: Self)
        ensures
            r@ == self@,
    {
        match self {
            Request::Line => Request::Line,
            Request::Read(name) => Request::Read(copy_chars(name)),
            Request::Write(name, text) => Request::Write(copy_chars(name), copy_chars(text)),
            Request::Run(words) => {
                let copy = duplicate_rows(words, 0);
                assert(rows(words@).skip(0) == rows(words@));
                Request::Run(copy)
            },
        }
    }
}

fn duplicate_request(pending: &Option<Request>) -> (r: Option<Request>)
    ensures
        match (r, *pending) {
            (Some(a), Some(b)) => a@ == b@,
            (None, None) => true,
            _ => false,
        },
{
    match pending {
        Some(request) => Some(request.duplicate()),
        None => None,
    }
}

impl Funge {
    /// An engine in the same state.
    pub fn duplicate(&self) -> (f: Self)
        requires
            self.wf(),
        ensures
            f.wf(),
            f@ == self@,
    {
        let todo = duplicate_all(&self.todo);
        Funge {
            world: self.world.duplicate(),
            ips: duplicate_all(&self.ips),
            todo,
            steps: self.steps,
            pending: duplicate_request(&self.pending),
        }
    }
}

impl FungeDelta {
    pub fn new(
        code: Vec<Change>,
        extent: Rect,
        ips: Vec<IP>,
        todo: Vec<IP>,
        output: usize,
        input: Vec<Vec<char>>,
        replies: Vec<Reply>,
        pending: Option<Request>,
        next_id: usize,
        steps: isize,
    ) -> (d: Self)
        ensures
            d == (FungeDelta {
                code,
                extent,
                ips,
                todo,
                output,
                input,
                replies,
                pending,
                next_id,
                steps,
            }),
    {
        FungeDelta { code, extent, ips, todo, output, input, replies, pending, next_id, steps }
    }

    /// What has to be taken back to get from `new` to `old`, where `new`
    /// can come of `old` by steps.
    pub fn between(prior: &Funge, next: &Funge) -> (d: Self)
        requires
            prior.wf(),
            next.wf(),
            next@.world.comes_of(prior@.world),
        ensures
            d@.tells(prior@, next@),
            undone(next@, d@) == prior@,
    {
        let code = changed_cells(&prior.world.code, &next.world.code);
        let kept = next.world.input.len();
        let d = FungeDelta {
            code,
            extent: prior.world.extent,
            ips: duplicate_all(&prior.ips),
            todo: duplicate_all(&prior.todo),
            output: next.world.output.len() - prior.world.output.len(),
            input: duplicate_rows(&prior.world.input.store, kept),
            replies: duplicate_replies(&prior.world.replies),
            pending: duplicate_request(&prior.pending),
            next_id: prior.world.next_id,
            steps: prior.steps,
        };
        proof {
            let back = undone(next@, d@);
            assert(back.world.input =~= prior@.world.input);
            assert(back.world.output =~= prior@.world.output);
            assert(back.world == prior@.world);
        }
        d
    }

    /// Takes the step back that the delta holds.
    pub fn undo(self, funge: Funge) -> (f: Funge)
        requires
            funge.world.code.wf(),
        ensures
            f@ == undone(funge@, self@),
            f.world.code.wf(),
    {
        let mut f = funge;
        let mut i: usize = 0;
        while i < self.code.len()
            invariant
                i <= self.code.len(),
                f.world.code.wf(),
                f.world.code@ == patched(funge.world.code@, self.code@, i as nat),
                f@ == (FungeState {
                    world: WorldState { space: f.world.code@, ..funge@.world },
                    ..funge@
                }),
            decreases self.code.len() - i,
        {
            f.world.code.put(self.code[i].at, self.code[i].was);
            i = i + 1;
        }
        let ghost out = f.world.output@;
        let mut k: usize = 0;
        while k < self.output && f.world.output.len() > 0
            invariant
                k <= self.output,
                f.world.code.wf(),
                out == funge@.world.output,
                k <= out.len(),
                f.world.output@ == out.take(out.len() - k),
                f.world.output@.len() == 0 ==> k == out.len(),
                f@ == (FungeState {
                    world: WorldState {
                        space: patched(funge.world.code@, self.code@, self.code@.len()),
                        output: f.world.output@,
                        ..funge@.world
                    },
                    ..funge@
                }),
            decreases self.output - k,
        {
            f.world.output.store.pop();
            k = k + 1;
            assert(f.world.output@ =~= out.take(out.len() - k));
        }
        assert(f.world.output@ =~= undone(funge@, self@).world.output);
        let ghost before = f.world.input@;
        let mut input = self.input;
        f.world.input.store.append(&mut input);
        assert(f.world.input@ =~= before + rows(self.input@));
        f.world.extent = self.extent;
        f.world.replies = self.replies;
        f.world.next_id = self.next_id;
        f.ips = self.ips;
        f.todo = self.todo;
        f.steps = self.steps;
        f.pending = self.pending;
        f
    }
}

/// The most steps that a history holds.
pub const MAX_HISTORY: usize = 16384;

/// The last steps of a run, so that they can be taken back.
#[derive(Debug)]
pub struct FungeHist {
    /// The most steps that are held.
    pub maxlen: usize,
    /// What each step changed, the last step last.
    pub history: Vec<FungeDelta>,
    /// The state before a step that failed.
    pub last: Option<Funge>,
}

/// `history` with `delta` after it, and without its first state where that
/// makes more than `maxlen`.
pub open spec fn remembered(history: Seq<DeltaState>, delta: DeltaState, maxlen: nat) -> Seq<DeltaState> {
    if history.len() + 1 > maxlen {
        history.push(delta).drop_first()
    } else {
        history.push(delta)
    }
}

impl FungeHist {
    /// The deltas held, the last step last.
    pub open spec fn deltas(&self) -> Seq<DeltaState> {
        delta_views(self.history@)
    }

    /// An empty history that holds up to 16384 steps.
    pub fn new() -> (h: Self)
        ensures
            h.maxlen == MAX_HISTORY,
            h.deltas() == Seq::<DeltaState>::empty(),
            h.last is None,
    {
        let h = FungeHist { maxlen: MAX_HISTORY, history: Vec::new(), last: None };
        assert(h.deltas() =~= Seq::<DeltaState>::empty());
        h
    }

    /// The number of steps held.
    pub fn len(&self) -> (n: usize)
        ensures
            n == self.deltas().len(),
    {
        self.history.len()
    }

    /// Records a step from `old`. Where it gave `new`, what it changed is
    /// held, and the oldest step is let go when there are more than the
    /// history holds. Where it failed, the state before it is kept.
    pub fn push(&mut self, prior: &Funge, next: &Result<Funge, Halt>)
        requires
            prior.wf(),
            *next matches Ok(f) ==> f.wf() && f@.world.comes_of(prior@.world),
        ensures
            final(self).maxlen == old(self).maxlen,
            match *next {
                Ok(f) => exists|d: DeltaState|
                    d.tells(prior@, f@) && undone(f@, d) == prior@ && final(self).deltas()
                        == #[trigger] remembered(
                        old(self).deltas(),
                        d,
                        old(self).maxlen as nat,
                    ) && final(self).last == old(self).last,
                Err(_) => final(self).deltas() == old(self).deltas() && final(self).last is Some
                    && final(self).last->0@ == prior@ && final(self).last->0.wf(),
            },
    {
        match next {
            Ok(f) => {
                let d = FungeDelta::between(prior, f);
                let ghost before = self.deltas();
                let ghost dv = d@;
                self.history.push(d);
                assert(self.deltas() =~= before.push(dv));
                if self.history.len() > self.maxlen {
                    self.history.remove(0);
                    assert(self.deltas() =~= before.push(dv).drop_first());
                }
                assert(self.deltas() == remembered(before, dv, self.maxlen as nat));
            },
            Err(_) => {
                self.last = Some(prior.duplicate());
            },
        }
    }

    /// Takes the last step back. From a state that runs: the state before
    /// the last step held, or the same state where none is held. From a
    /// failure: the state that was kept before it.
    pub fn pop(&mut self, funge: Result<Funge, Halt>) -> (f: Funge)
        requires
            funge is Err ==> old(self).last is Some,
            funge matches Ok(g) ==> g.world.code.wf(),
        ensures
            final(self).maxlen == old(self).maxlen,
            match funge {
                Ok(g) => final(self).last == old(self).last && (if old(self).deltas().len() > 0 {
                    f@ == undone(g@, old(self).deltas().last()) && final(self).deltas() == old(
                        self,
                    ).deltas().drop_last() && f.world.code.wf()
                } else {
                    f == g && final(self).deltas() == old(self).deltas()
                }),
                Err(_) => f == old(self).last->0 && final(self).last is None && final(self).deltas()
                    == old(self).deltas(),
            },
    {
        match funge {
            Ok(g) => {
                let ghost before = self.deltas();
                match self.history.pop() {
                    Some(d) => {
                        assert(self.deltas() =~= before.drop_last());
                        assert(d@ == before.last());
                        d.undo(g)
                    },
                    None => g,
                }
            },
            Err(_) => {
                let mut kept: Option<Funge> = None;
                std::mem::swap(&mut kept, &mut self.last);
                kept.unwrap()
            },
        }
    }
}

} // verus!
