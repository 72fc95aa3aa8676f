//! The engine: the world, the live instruction pointers and the step
//! counter. A tick runs every pointer once, in order.

use vstd::prelude::*;
use crate::cell::valid_bits;
use crate::chance::{local_now, moment_ok, random_direction, turns_ok};
use crate::decoder::flipped;
use crate::error::FungeError;
use crate::geometry::{Pos, Rect};
use crate::host::{answers, Answer, Ask, Moment, Reply, Request};
use crate::io::IO;
use crate::ip::{advanced, ip_views, IpState, IP, SEMICOLON};
use crate::lineage::{ids_below, ids_differ, lemma_merge, lemma_stepped_ids};
use crate::ops::Exec;
use crate::rules::{policy_of, version_named, OnError, Rules, Version};
use crate::semantics::{plain, stepped, Outcome};
use crate::space::{loadable, loaded, widest, FungeSpace, SPACE};
use crate::stack::Stack;
use crate::text::{
    append_chars, chars_of, decimal, decimal_of, join_rows, joined, lines_of, rows, split_lines,
    string_of, texts,
};
use crate::world::{var_views, Var, World, WorldState};

verus! {

/// The engine.
#[derive(Debug)]
pub struct Funge {
    pub world: World,
    /// The live pointers. While a tick waits for the host: those that
    /// have run in it, and what they left.
    pub ips: Vec<IP>,
    /// While a tick waits for the host: the pointers that have yet to
    /// run in it, the next one last.
    pub todo: Vec<IP>,
    /// The number of ticks that have run to their end.
    pub steps: isize,
    /// What the host is asked to do before the tick can go on.
    pub pending: Option<Request>,
}

/// `Funge`, as a mathematical value.
pub struct FungeState {
    pub world: WorldState,
    pub ips: Seq<IpState>,
    /// The pointers that have yet to run in this tick, the next one first.
    pub todo: Seq<IpState>,
    pub steps: isize,
    pub pending: Option<Ask>,
}

impl View for Funge {
    type V = FungeState;

    open spec fn view(&self) -> FungeState {
        FungeState {
            world: self.world@,
            ips: ip_views(self.ips@),
            todo: ip_views(self.todo@).reverse(),
            steps: self.steps,
            pending: match self.pending {
                Some(request) => Some(request@),
                None => None,
            },
        }
    }
}

/// How a run ended, and what the program had written and the host had not
/// taken when it did.
#[derive(Debug)]
pub struct Halt {
    /// `Quit` with the exit code where the program ended; what failed
    /// otherwise.
    pub error: FungeError,
    pub output: Vec<Vec<char>>,
}

/// `Halt`, as a mathematical value.
pub struct HaltState {
    pub error: FungeError,
    pub output: Seq<Seq<char>>,
}

impl View for Halt {
    type V = HaltState;

    open spec fn view(&self) -> HaltState {
        HaltState { error: self.error, output: rows(self.output@) }
    }
}

/// What the pointers of a tick come to.
pub enum Ran {
    /// All of them have run.
    Finished { world: WorldState, ips: Seq<IpState> },
    /// The first of `todo` needs the host; nothing of it has been done.
    Waiting { world: WorldState, todo: Seq<IpState>, done: Seq<IpState>, ask: Ask },
    /// The run ends. `output` holds what had been written when the pointer
    /// that ends it took its step.
    Failed { error: FungeError, output: Seq<Seq<char>> },
}

/// The random turn for the pointer that runs as number `i`; 0 where none
/// was drawn.
pub open spec fn dir_at(dirs: Seq<u8>, i: int) -> u8 {
    if 0 <= i < dirs.len() {
        dirs[i]
    } else {
        0
    }
}

/// The pointers of `todo` run one after the other, each taking one step;
/// `done` holds what the pointers before them left. Answers of the host that
/// a pointer did not use are dropped when it is done.
pub open spec fn run_all(
    world: WorldState,
    todo: Seq<IpState>,
    done: Seq<IpState>,
    now: Moment,
    dirs: Seq<u8>,
    at: int,
) -> Ran
    decreases todo.len(),
{
    if todo.len() == 0 {
        Ran::Finished { world, ips: done }
    } else {
        match stepped(todo[0], world, now, dir_at(dirs, at)) {
            Outcome::Done { world: w1, ips, skip } => run_all(
                WorldState { replies: Seq::empty(), ..w1 },
                todo.drop_first(),
                done + ips,
                now,
                dirs,
                at + 1,
            ),
            Outcome::Blocked(ask) => Ran::Waiting { world, todo, done, ask },
            Outcome::Failed(e) => Ran::Failed { error: e, output: world.output },
        }
    }
}

/// One tick. Every live pointer takes one step, in order, and what they
/// leave are the live pointers of the next tick; then the step counter goes
/// up by one. A tick that waited for the host goes on where it stopped. The
/// run ends with `Quit(0)` when no pointer is left, and with `Casting` when
/// the step counter cannot go up. The step of a pointer that ends the run
/// leaves nothing behind.
#[verifier::opaque]
pub open spec fn tick_of(s: FungeState, now: Moment, dirs: Seq<u8>) -> Result<FungeState, HaltState> {
    if s.steps == isize::MAX {
        Err(HaltState { error: FungeError::Casting, output: s.world.output })
    } else {
        match (if s.todo.len() == 0 {
            run_all(s.world, s.ips, Seq::empty(), now, dirs, 0)
        } else {
            run_all(s.world, s.todo, s.ips, now, dirs, 0)
        }) {
            Ran::Finished { world, ips } => if ips.len() == 0 {
                Err(HaltState { error: FungeError::Quit(0), output: world.output })
            } else {
                Ok(
                    FungeState {
                        world,
                        ips,
                        todo: Seq::empty(),
                        steps: (s.steps + 1) as isize,
                        pending: None,
                    },
                )
            },
            Ran::Waiting { world, todo, done, ask } => Ok(
                FungeState { world, ips: done, todo, steps: s.steps, pending: Some(ask) },
            ),
            Ran::Failed { error, output } => Err(HaltState { error, output }),
        }
    }
}

/// Whether the step of a pointer may need the host: it stands on `i`, `o`,
/// `=` or `k`, or on `&` or `~` while no input token is left.
pub open spec fn may_ask(ip: IpState, w: WorldState) -> bool {
    let op = w.space[ip.position];
    !ip.string_mode && (op == 105 || op == 111 || op == 61 || op == 107 || ((op == 38 || op == 126)
        && w.input.len() == 0))
}

/// Whether an instruction other than `k` may need the host.
pub open spec fn asking(op: u8, w: WorldState) -> bool {
    op == 105 || op == 111 || op == 61 || ((op == 38 || op == 126) && w.input.len() == 0)
}

proof fn lemma_input_asks(ip: IpState, w: WorldState, op: u8, now: Moment, dir: u8)
    requires
        op == 38 || op == 126,
    ensures
        plain(ip, w, op, now, dir) is Blocked ==> asking(op, w),
{
    reveal(plain);
}

proof fn lemma_others_ask_nothing(ip: IpState, w: WorldState, op: u8, now: Moment, dir: u8)
    requires
        op != 38,
        op != 126,
        op != 105,
        op != 111,
        op != 61,
        op < 107,
    ensures
        !(plain(ip, w, op, now, dir) is Blocked),
{
    reveal(plain);
}

proof fn lemma_letters_ask_nothing(ip: IpState, w: WorldState, op: u8, now: Moment, dir: u8)
    requires
        op != 111,
        op != 126,
        op >= 107,
    ensures
        !(plain(ip, w, op, now, dir) is Blocked),
{
    reveal(plain);
}

/// A step that needs the host is one that may.
pub proof fn lemma_asks(ip: IpState, w: WorldState, now: Moment, dir: u8)
    ensures
        stepped(ip, w, now, dir) is Blocked ==> may_ask(ip, w),
{
    let cell = w.space[ip.position];
    if 0 <= cell <= 255 && cell != 107 {
        let op = cell as u8;
        if op == 38 || op == 126 {
            lemma_input_asks(ip, w, op, now, dir);
        } else if op == 105 || op == 111 || op == 61 {
        } else if op < 107 {
            lemma_others_ask_nothing(ip, w, op, now, dir);
        } else {
            lemma_letters_ask_nothing(ip, w, op, now, dir);
        }
    }
}

/// Whether a result is the given one.
pub open spec fn agrees(r: Result<Funge, Halt>, expected: Result<FungeState, HaltState>) -> bool {
    match expected {
        Ok(state) => r matches Ok(f) && f@ == state && f.wf(),
        Err(h) => r matches Err(x) && x@ == h,
    }
}

/// Whether a start is the given one.
pub open spec fn begins(r: Result<Funge, FungeError>, expected: Result<FungeState, FungeError>) -> bool {
    match expected {
        Ok(state) => r matches Ok(f) && f@ == state && f.wf(),
        Err(e) => r matches Err(x) && x == e,
    }
}

impl Funge {
    /// The world is well formed, and no two pointers have the same id.
    pub open spec fn wf(&self) -> bool {
        self.world.wf() && self@.wf()
    }

    /// Whether the step of `ip` may need the host.
    fn risky(&self, ip: &IP) -> (b: bool)
        requires
            self.world.wf(),
        ensures
            b == may_ask(ip@, self.world@),
    {
        let op = ip.op(&self.world);
        !ip.string && (op == 105 || op == 111 || op == 61 || op == 107 || ((op == 38 || op == 126)
            && self.world.input.len() == 0))
    }

    /// One tick, with the time and the random turns given: `dirs` holds a
    /// number from 0 to 3 for each pointer, in the order in which they run.
    pub fn tick(self, now: Moment, dirs: &Vec<u8>) -> (r: Result<Self, Halt>)
        requires
            self.wf(),
        ensures
            agrees(r, tick_of(self@, now, dirs@)),
            r matches Ok(f) ==> (f.pending is None ==> f.steps == self.steps + 1) && (f.pending
                is Some ==> f.steps == self.steps),
            r matches Ok(f) ==> f@.world.comes_of(self@.world),
            r matches Ok(f) ==> (self@.alone() ==> f@.inside()),
            r matches Ok(f) ==> f@.at_rest(),
            r matches Ok(f) ==> ids_differ(f@.pointers()) && ids_below(
                f@.pointers(),
                f@.world.next_id,
            ),
    {
        reveal(tick_of);
        let mut f = self;
        if f.steps == isize::MAX {
            return Err(Halt { error: FungeError::Casting, output: f.world.output.store });
        }
        let ghost goal = tick_of(self@, now, dirs@);
        if f.todo.len() == 0 {
            let mut live: Vec<IP> = Vec::new();
            std::mem::swap(&mut live, &mut f.ips);
            f.todo = flipped(live);
            assert(ip_views(f.todo@).reverse() =~= ip_views(self.ips@));
            assert(ip_views(f.ips@) =~= Seq::<IpState>::empty());
            assert(f@.pointers() =~= self@.pointers());
        }
        f.pending = None;
        let mut at: usize = 0;
        let count: usize = f.todo.len();
        let ghost start = run_all(f.world@, ip_views(f.todo@).reverse(), ip_views(f.ips@), now, dirs@, 0);
        while f.todo.len() > 0
            invariant
                f.wf(),
                f.world@.comes_of(self@.world),
                f.steps == self.steps,
                self@.alone() ==> count == 1 && (at == 0 ==> f.ips@.len() == 0) && f@.inside(),
                f.steps < isize::MAX,
                f.pending is None,
                at + f.todo@.len() == count,
                goal == tick_of(self@, now, dirs@),
                goal == (match start {
                    Ran::Finished { world, ips } => if ips.len() == 0 {
                        Err(HaltState { error: FungeError::Quit(0), output: world.output })
                    } else {
                        Ok(
                            FungeState {
                                world,
                                ips,
                                todo: Seq::empty(),
                                steps: (self.steps + 1) as isize,
                                pending: None,
                            },
                        )
                    },
                    Ran::Waiting { world, todo, done, ask } => Ok(
                        FungeState { world, ips: done, todo, steps: self.steps, pending: Some(ask) },
                    ),
                    Ran::Failed { error, output } => Err(HaltState { error, output }),
                }),
                start == run_all(
                    f.world@,
                    ip_views(f.todo@).reverse(),
                    ip_views(f.ips@),
                    now,
                    dirs@,
                    at as int,
                ),
            decreases f.todo.len(),
        {
            let ghost todo_before = ip_views(f.todo@).reverse();
            let ghost done_before = ip_views(f.ips@);
            let ghost w = f.world@;
            let ghost f_before = f@;
            let ip = f.todo.pop().unwrap();
            assert(todo_before[0] == ip@);
            assert(todo_before.drop_first() =~= ip_views(f.todo@).reverse());
            let dir = if at < dirs.len() {
                dirs[at]
            } else {
                0
            };
            let written = f.world.output.len();
            let saved = if f.risky(&ip) {
                Some((f.world.duplicate(), ip.duplicate()))
            } else {
                None
            };
            proof {
                lemma_asks(ip@, w, now, dir);
                assert(f_before.pointers()[done_before.len() as int] == ip@);
                lemma_stepped_ids(ip@, w, now, dir);
            }
            match ip.step(&mut f.world, now, dir) {
                Exec::Done(mut ips, skip) => {
                    let ghost more = ip_views(ips@);
                    let ghost left = ips@;
                    f.ips.append(&mut ips);
                    assert(ip_views(f.ips@) =~= done_before + more);
                    assert(self@.alone() ==> f.ips@ =~= left);
                    f.world.replies.clear();
                    assert(answers(f.world.replies@) =~= Seq::<Answer>::empty());
                    proof {
                        lemma_merge(done_before, todo_before, more, w.next_id, f.world.next_id);
                        assert(f@.pointers() =~= (done_before + more) + todo_before.drop_first());
                    }
                },
                Exec::Blocked(request) => {
                    match saved {
                        Some((world, same)) => {
                            f.world = world;
                            f.todo.push(same);
                            assert(ip_views(f.todo@).reverse() =~= todo_before);
                            f.pending = Some(request);
                            assert(self@.alone() ==> f@.ips.len() == 0);
                            assert(f@.pointers() =~= f_before.pointers());
                            return Ok(f);
                        },
                        // a step that asks is one that may
                        None => unreached(),
                    }
                },
                Exec::Failed(e) => {
                    let mut output: Vec<Vec<char>> = Vec::new();
                    std::mem::swap(&mut output, &mut f.world.output.store);
                    output.truncate(written);
                    assert(rows(output@) =~= w.output);
                    return Err(Halt { error: e, output });
                },
            }
            at = at + 1;
        }
        assert(ip_views(f.todo@).reverse() =~= Seq::<IpState>::empty());
        let ghost run = f@;
        f.steps = f.steps + 1;
        assert(f@.ips == run.ips && f@.world == run.world);
        assert(run.inside() ==> f@.inside());
        assert(f@.pointers() =~= run.pointers());
        if f.ips.len() == 0 {
            Err(Halt { error: FungeError::Quit(0), output: f.world.output.store })
        } else {
            Ok(f)
        }
    }
}

/// The width of a cell.
#[derive(Clone, Copy, Debug, PartialEq, Eq, Structural)]
pub enum Width {
    W8,
    W16,
    W32,
    W64,
    W128,
    /// The width of a machine integer.
    Native,
}

impl Width {
    /// The width in bits.
    pub open spec fn bits_of(self) -> u32 {
        match self {
            Width::W8 => 8,
            Width::W16 => 16,
            Width::W32 => 32,
            Width::W64 => 64,
            Width::W128 => 128,
            Width::Native => usize::BITS,
        }
    }

    /// The width in bits.
    pub fn bits(self) -> (b: u32)
        ensures
            b == self.bits_of(),
            valid_bits(b),
    {
        match self {
            Width::W8 => 8,
            Width::W16 => 16,
            Width::W32 => 32,
            Width::W64 => 64,
            Width::W128 => 128,
            Width::Native => usize::BITS,
        }
    }
}

/// Whether `text` starts with `prefix`.
pub open spec fn has_prefix(text: Seq<char>, prefix: Seq<char>) -> bool {
    prefix.len() <= text.len() && text.take(prefix.len() as int) == prefix
}

/// Whether `text` starts with `prefix`.
pub fn starts_with(text: &Vec<char>, prefix: &Vec<char>) -> (b: bool)
    ensures
        b == has_prefix(text@, prefix@),
{
    if prefix.len() > text.len() {
        return false;
    }
    let mut i: usize = 0;
    while i < prefix.len()
        invariant
            i <= prefix.len() <= text.len(),
            text@.take(i as int) == prefix@.take(i as int),
        decreases prefix.len() - i,
    {
        if text[i] != prefix[i] {
            assert(text@.take(prefix.len() as int)[i as int] != prefix@[i as int]);
            return false;
        }
        i = i + 1;
        assert(text@.take(i as int) == text@.take(i - 1).push(text@[i - 1]));
        assert(prefix@.take(i as int) == prefix@.take(i - 1).push(prefix@[i - 1]));
    }
    assert(prefix@.take(prefix.len() as int) == prefix@);
    true
}

/// The lines of a source text that are the program: all of them, but for a
/// first line that names the interpreter `exe` after `#!/usr/bin/env`, with
/// or without `-S`.
pub open spec fn program_lines(code: Seq<char>, exe: Seq<char>) -> Seq<Seq<char>> {
    let lines = lines_of(code);
    if lines.len() > 0 && (has_prefix(lines[0], "#!/usr/bin/env "@ + exe) || has_prefix(
        lines[0],
        "#!/usr/bin/env -S "@ + exe,
    )) {
        lines.drop_first()
    } else {
        lines
    }
}

/// The world that a program starts in: Befunge-98, the extent of the
/// program as loaded, no input, no output.
pub open spec fn first_world(lines: Seq<Seq<char>>, bits: u32, exe: Seq<char>) -> WorldState {
    WorldState {
        bits,
        rules: Rules { version: Version::B98, on_error: OnError::Reflect },
        extent: Rect { left: 0, right: widest(lines) as isize, top: 0, bottom: lines.len() as isize },
        space: Map::total(|p: Pos| loaded(lines, p)),
        input: Seq::empty(),
        output: Seq::empty(),
        replies: Seq::empty(),
        program: exe,
        args: Seq::empty(),
        vars: Seq::empty(),
        separator: '/',
        next_id: 1,
    }
}

/// The engine that a program starts in, with one pointer at the first
/// instruction from the origin on. `Casting` when a character of the program
/// is no value of a cell or the program is larger than a coordinate can count;
/// `Stuck` when the first row holds no instruction.
pub open spec fn first_state(lines: Seq<Seq<char>>, bits: u32, exe: Seq<char>) -> Result<
    FungeState,
    FungeError,
> {
    let world = first_world(lines, bits, exe);
    if !loadable(lines, bits) || widest(lines) > isize::MAX || lines.len() > isize::MAX {
        Err(FungeError::Casting)
    } else {
        match (if world.space[Pos { x: 0, y: 0 }] == SPACE || world.space[Pos { x: 0, y: 0 }]
            == SEMICOLON {
            advanced(IP::first(), world, false)
        } else {
            Ok(IP::first())
        }) {
            Err(e) => Err(e),
            Ok(ip) => Ok(
                FungeState { world, ips: seq![ip], todo: Seq::empty(), steps: 0, pending: None },
            ),
        }
    }
}

/// The text of a stack: its cells in decimal from the bottom up, with a
/// comma and a space between them, in square brackets.
pub open spec fn stack_text(cells: Seq<i128>) -> Seq<char> {
    seq!['['] + joined(Seq::new(cells.len(), |i: int| decimal(cells[i] as int)), seq![',', ' '])
        + seq![']']
}

/// The text of the stacks of a pointer, a line for each, the top stack last.
pub open spec fn stacks_text(ip: IpState) -> Seq<char> {
    joined(
        Seq::new(ip.lower.len() + 1, |i: int| stack_text(ip.lower.push(ip.toss)[i])),
        seq!['\n'],
    )
}

impl FungeState {
    /// The world is well formed, no two pointers have the same id, and the
    /// next id is above them all.
    pub open spec fn wf(self) -> bool {
        &&& self.world.wf()
        &&& ids_differ(self.pointers())
        &&& ids_below(self.pointers(), self.world.next_id)
    }

    /// Whether every pointer of `ips` that is not in stringmode lies inside
    /// the extent, or on a cell that holds a space: it came to rest on an
    /// instruction, and a pointer that ran after it has written the space.
    pub open spec fn at_rest(self) -> bool {
        forall|i: int|
            0 <= i < self.ips.len() && !(#[trigger] self.ips[i]).string_mode
                ==> self.world.extent.has(self.ips[i].position) || self.world.space[self.ips[i].position]
                == SPACE
    }

    /// Whether one pointer alone is to run in the next tick.
    pub open spec fn alone(self) -> bool {
        (self.todo.len() == 0 && self.ips.len() == 1) || (self.todo.len() == 1 && self.ips.len()
            == 0)
    }

    /// Whether every pointer of `ips` that is not in stringmode lies inside
    /// the extent.
    pub open spec fn inside(self) -> bool {
        forall|i: int|
            0 <= i < self.ips.len() && !(#[trigger] self.ips[i]).string_mode
                ==> self.world.extent.has(self.ips[i].position)
    }

    /// All the pointers: those that have run in a waiting tick and what
    /// they left, then those that have yet to run.
    pub open spec fn pointers(self) -> Seq<IpState> {
        self.ips + self.todo
    }
}

/// How a run stopped.
#[derive(Debug)]
pub enum Run {
    /// The run ended: the program with its exit code, or a failure.
    Ended(Halt),
    /// The host has to answer `pending` before the run can go on.
    Waiting(Funge),
    /// The ticks that were granted have run.
    Paused(Funge),
}

/// `Run`, as a mathematical value.
pub enum RunState {
    Ended(HaltState),
    Waiting(FungeState),
    Paused(FungeState),
}

impl View for Run {
    type V = RunState;

    open spec fn view(&self) -> RunState {
        match self {
            Run::Ended(h) => RunState::Ended(h@),
            Run::Waiting(f) => RunState::Waiting(f@),
            Run::Paused(f) => RunState::Paused(f@),
        }
    }
}

/// Whether a run of at most `limit` ticks from `s` can stop as `r`: each
/// tick with some time of day and some random turns.
pub open spec fn stops(s: FungeState, r: RunState, limit: nat) -> bool
    decreases limit,
{
    if limit == 0 {
        r == RunState::Paused(s)
    } else {
        exists|now: Moment, dirs: Seq<u8>|
            moment_ok(now) && turns_ok(dirs) && (match #[trigger] tick_of(s, now, dirs) {
                Err(h) => r == RunState::Ended(h),
                Ok(next) => if next.pending is Some {
                    r == RunState::Waiting(next)
                } else {
                    stops(next, r, (limit - 1) as nat)
                },
            })
    }
}

fn stack_string(stack: &Stack) -> (r: Vec<char>)
    ensures
        r@ == stack_text(stack@),
{
    let mut parts: Vec<Vec<char>> = Vec::new();
    let mut i: usize = 0;
    while i < stack.cells.len()
        invariant
            i <= stack.cells.len(),
            parts@.len() == i,
            forall|k: int| 0 <= k < i ==> (#[trigger] parts@[k])@ == decimal(stack@[k] as int),
        decreases stack.cells.len() - i,
    {
        parts.push(decimal_of(stack.cells[i]));
        i = i + 1;
    }
    assert(rows(parts@) =~= Seq::new(stack@.len(), |i: int| decimal(stack@[i] as int)));
    let mut sep: Vec<char> = Vec::new();
    sep.push(',');
    sep.push(' ');
    assert(sep@ =~= seq![',', ' ']);
    let mut r: Vec<char> = Vec::new();
    r.push('[');
    let body = join_rows(&parts, &sep);
    append_chars(&mut r, &body);
    r.push(']');
    assert(r@ =~= stack_text(stack@));
    r
}

fn stacks_string(ip: &IP) -> (r: Vec<char>)
    ensures
        r@ == stacks_text(ip@),
{
    let mut parts: Vec<Vec<char>> = Vec::new();
    let mut i: usize = 0;
    while i < ip.stack.lower.len()
        invariant
            i <= ip.stack.lower.len(),
            parts@.len() == i,
            forall|k: int| 0 <= k < i ==> (#[trigger] parts@[k])@ == stack_text(ip@.lower[k]),
        decreases ip.stack.lower.len() - i,
    {
        parts.push(stack_string(&ip.stack.lower[i]));
        i = i + 1;
    }
    parts.push(stack_string(&ip.stack.top));
    assert(rows(parts@) =~= Seq::new(
        ip@.lower.len() + 1,
        |i: int| stack_text(ip@.lower.push(ip@.toss)[i]),
    ));
    let mut sep: Vec<char> = Vec::new();
    sep.push('\n');
    assert(sep@ =~= seq!['\n']);
    join_rows(&parts, &sep)
}

impl Funge {
    /// Loads a program. A first line that names the interpreter `exe` is
    /// no part of it.
    pub fn new(code: &str, width: Width, exe: &str) -> (r: Result<Self, FungeError>)
        ensures
            begins(r, first_state(program_lines(code@, exe@), width.bits_of(), exe@)),
    {
        let bits = width.bits();
        let text = chars_of(code);
        let name = chars_of(exe);
        let mut lines = split_lines(&text);
        if lines.len() > 0 {
            let mut plain_mark = chars_of("#!/usr/bin/env ");
            append_chars(&mut plain_mark, &name);
            let mut split_mark = chars_of("#!/usr/bin/env -S ");
            append_chars(&mut split_mark, &name);
            if starts_with(&lines[0], &plain_mark) || starts_with(&lines[0], &split_mark) {
                let ghost all = rows(lines@);
                lines.remove(0);
                assert(rows(lines@) =~= all.drop_first());
            }
        }
        let ghost program = rows(lines@);
        assert(program == program_lines(code@, exe@));
        let code = match FungeSpace::new(&lines, bits) {
            Ok(code) => code,
            Err(e) => {
                return Err(FungeError::Casting);
            },
        };
        let world = World {
            bits,
            rules: Rules::new(),
            extent: code.orig_rect,
            code,
            input: IO::new(),
            output: IO::new(),
            replies: Vec::new(),
            program: name,
            args: Vec::new(),
            vars: Vec::new(),
            separator: '/',
            next_id: 1,
        };
        proof {
            let expected = first_world(program, bits, exe@);
            assert(world@.space =~= expected.space);
            assert(world@.replies =~= expected.replies);
            assert(world@.args =~= expected.args);
            assert(world@.vars =~= expected.vars);
            assert(world@ == expected);
            assert forall|p: Pos| !world.extent.has(p) implies #[trigger] world@.space[p]
                == SPACE by {
                if 0 <= p.y < program.len() && 0 <= p.x {
                    crate::space::lemma_widest_bound(program, p.y as int);
                }
            }
        }
        let ip = match IP::new(&world) {
            Ok(ip) => ip,
            Err(e) => {
                return Err(e);
            },
        };
        let mut ips: Vec<IP> = Vec::new();
        ips.push(ip);
        let f = Funge { world, ips, todo: Vec::new(), steps: 0, pending: None };
        assert(f@.ips =~= seq![ip@]);
        assert(f@.todo =~= Seq::<IpState>::empty());
        Ok(f)
    }

    /// The engine with the instruction set and the error policy of the
    /// version that `version` names.
    pub fn with_version(self, version: &str) -> (r: Result<Self, FungeError>)
        ensures
            match version_named(version@) {
                Some(v) => r matches Ok(f) && f@ == (FungeState {
                    world: WorldState {
                        rules: Rules { version: v, on_error: policy_of(v) },
                        ..self@.world
                    },
                    ..self@
                }) && (self.wf() ==> f.wf()),
                None => r matches Err(FungeError::Version(name)) && name@ == version@,
            },
    {
        match Rules::with_rules(version) {
            Ok(rules) => {
                let mut f = self;
                f.world.rules = rules;
                Ok(f)
            },
            Err(e) => Err(e),
        }
    }

    /// The engine with `args` as its input tokens, the first of them to be
    /// read first.
    pub fn with_arguments(self, args: Vec<String>) -> (f: Self)
        ensures
            f@ == (FungeState {
                world: WorldState { input: texts(args@).reverse(), ..self@.world },
                ..self@
            }),
            self.wf() ==> f.wf(),
    {
        let mut f = self;
        f.world.input = IO::new().with_store(args);
        f
    }

    /// The engine with `input` as its input channel.
    pub fn with_input(self, input: IO) -> (f: Self)
        ensures
            f@ == (FungeState { world: WorldState { input: input@, ..self@.world }, ..self@ }),
            self.wf() ==> f.wf(),
    {
        let mut f = self;
        f.world.input = input;
        f
    }

    /// The engine with `output` as its output channel.
    pub fn with_output(self, output: IO) -> (f: Self)
        ensures
            f@ == (FungeState { world: WorldState { output: output@, ..self@.world }, ..self@ }),
            self.wf() ==> f.wf(),
    {
        let mut f = self;
        f.world.output = output;
        f
    }

    /// The engine with what the system information tells of the host: the
    /// arguments of the program, the environment, and the character that
    /// parts the names of a path.
    pub fn with_environment(self, args: Vec<Vec<char>>, vars: Vec<Var>, separator: char) -> (f: Self)
        ensures
            f@ == (FungeState {
                world: WorldState {
                    args: rows(args@),
                    vars: var_views(vars@),
                    separator,
                    ..self@.world
                },
                ..self@
            }),
            self.wf() ==> f.wf(),
    {
        let mut f = self;
        f.world.args = args;
        f.world.vars = vars;
        f.world.separator = separator;
        f
    }

    /// Hands the host's answer to the engine: the tick that waited for it
    /// can go on.
    pub fn answer(self, reply: Reply) -> (f: Self)
        ensures
            f@ == (FungeState {
                world: WorldState {
                    replies: self@.world.replies.push(reply@),
                    ..self@.world
                },
                pending: None,
                ..self@
            }),
            self.wf() ==> f.wf(),
    {
        let mut f = self;
        f.world.replies.push(reply);
        assert(answers(f.world.replies@) =~= self@.world.replies.push(reply@));
        f.pending = None;
        f
    }

    /// What a tick takes from the machine: the time of day it is, and a
    /// random turn for every pointer that is to run.
    pub fn chance(&self) -> (r: (Moment, Vec<u8>))
        ensures
            moment_ok(r.0),
            turns_ok(r.1@),
            r.1@.len() == (if self@.todo.len() == 0 {
                self@.ips.len()
            } else {
                self@.todo.len()
            }),
    {
        let now = local_now();
        let count = if self.todo.len() == 0 {
            self.ips.len()
        } else {
            self.todo.len()
        };
        let mut dirs: Vec<u8> = Vec::new();
        let mut i: usize = 0;
        while i < count
            invariant
                i <= count,
                dirs@.len() == i,
                turns_ok(dirs@),
            decreases count - i,
        {
            dirs.push(random_direction());
            i = i + 1;
        }
        (now, dirs)
    }

    /// One tick, at the time of day it is, with a random turn drawn for
    /// every pointer.
    pub fn step(self) -> (r: Result<Self, Halt>)
        requires
            self.wf(),
        ensures
            exists|now: Moment, dirs: Seq<u8>|
                moment_ok(now) && turns_ok(dirs) && agrees(r, #[trigger] tick_of(self@, now, dirs)),
            r matches Ok(f) ==> (f.pending is None ==> f.steps == self.steps + 1) && (f.pending
                is Some ==> f.steps == self.steps),
            r matches Ok(f) ==> f@.world.comes_of(self@.world),
            r matches Ok(f) ==> (self@.alone() ==> f@.inside()),
            r matches Ok(f) ==> f@.at_rest(),
            r matches Ok(f) ==> ids_differ(f@.pointers()) && ids_below(
                f@.pointers(),
                f@.world.next_id,
            ),
    {
        let (now, dirs) = self.chance();
        let ghost s = self@;
        let r = self.tick(now, &dirs);
        assert(agrees(r, tick_of(s, now, dirs@)));
        r
    }

    /// Runs at most `limit` ticks: until the program ends, the run fails,
    /// or the host has to answer.
    pub fn run(self, limit: usize) -> (r: Run)
        requires
            self.wf(),
        ensures
            stops(self@, r@, limit as nat),
            r matches Run::Waiting(f) ==> f.wf(),
            r matches Run::Paused(f) ==> f.wf(),
    {
        let mut f = self;
        let mut i: usize = 0;
        while i < limit
            invariant
                i <= limit,
                f.wf(),
                forall|r: RunState| #[trigger]
                    stops(f@, r, (limit - i) as nat) ==> stops(self@, r, limit as nat),
            decreases limit - i,
        {
            let ghost before = f@;
            let stepped = f.step();
            let ghost (now, dirs) = choose|now: Moment, dirs: Seq<u8>|
                moment_ok(now) && turns_ok(dirs) && agrees(stepped, #[trigger] tick_of(before, now, dirs));
            match stepped {
                Err(h) => {
                    assert(stops(before, RunState::Ended(h@), (limit - i) as nat));
                    return Run::Ended(h);
                },
                Ok(next) => {
                    if next.pending.is_some() {
                        assert(stops(before, RunState::Waiting(next@), (limit - i) as nat));
                        return Run::Waiting(next);
                    }
                    assert forall|r: RunState| #[trigger]
                        stops(next@, r, (limit - (i + 1)) as nat) implies stops(
                        self@,
                        r,
                        limit as nat,
                    ) by {
                        assert(tick_of(before, now, dirs) == Ok::<FungeState, HaltState>(next@));
                        assert((limit - (i + 1)) as nat == ((limit - i) as nat - 1) as nat);
                        assert(stops(before, r, (limit - i) as nat));
                    }
                    f = next;
                },
            }
            i = i + 1;
        }
        assert(stops(f@, RunState::Paused(f@), (limit - i) as nat));
        Run::Paused(f)
    }

    /// Where the pointers are, each as `[x, y]`: those that have run in
    /// a waiting tick and what they left, then those that have yet to run.
    pub fn ips_pos(&self) -> (pos: Vec<Vec<isize>>)
        ensures
            pos@.len() == self@.pointers().len(),
            forall|i: int|
                0 <= i < pos@.len() ==> (#[trigger] pos@[i])@ == seq![
                    self@.pointers()[i].position.x,
                    self@.pointers()[i].position.y,
                ],
    {
        let mut pos: Vec<Vec<isize>> = Vec::new();
        let mut i: usize = 0;
        while i < self.ips.len()
            invariant
                i <= self.ips.len(),
                pos@.len() == i,
                forall|k: int|
                    0 <= k < i ==> (#[trigger] pos@[k])@ == seq![
                        self.ips@[k].position.x,
                        self.ips@[k].position.y,
                    ],
            decreases self.ips.len() - i,
        {
            let mut p: Vec<isize> = Vec::new();
            p.push(self.ips[i].position.x);
            p.push(self.ips[i].position.y);
            assert(p@ =~= seq![self.ips@[i as int].position.x, self.ips@[i as int].position.y]);
            pos.push(p);
            i = i + 1;
        }
        let mut j: usize = self.todo.len();
        while j > 0
            invariant
                j <= self.todo.len(),
                pos@.len() == self.ips@.len() + (self.todo@.len() - j),
                forall|k: int|
                    0 <= k < self.ips@.len() ==> (#[trigger] pos@[k])@ == seq![
                        self.ips@[k].position.x,
                        self.ips@[k].position.y,
                    ],
                forall|k: int|
                    0 <= k < self.todo@.len() - j ==> (#[trigger] pos@[self.ips@.len() + k])@
                        == seq![
                        self.todo@[self.todo@.len() - 1 - k].position.x,
                        self.todo@[self.todo@.len() - 1 - k].position.y,
                    ],
            decreases j,
        {
            j = j - 1;
            let mut p: Vec<isize> = Vec::new();
            p.push(self.todo[j].position.x);
            p.push(self.todo[j].position.y);
            assert(p@ =~= seq![self.todo@[j as int].position.x, self.todo@[j as int].position.y]);
            pos.push(p);
        }
        assert forall|i: int| 0 <= i < pos@.len() implies (#[trigger] pos@[i])@ == seq![
            self@.pointers()[i].position.x,
            self@.pointers()[i].position.y,
        ] by {
            if i >= self.ips@.len() {
                let k = i - self.ips@.len();
                assert(pos@[self.ips@.len() + k] == pos@[i]);
            }
        }
        pos
    }

    /// The stacks of the pointers as text: a line for each stack, the stacks
    /// of a pointer from the bottom stack up, and the pointers in the order of
    /// `ips_pos`.
    pub fn get_stack_string(&self) -> (s: String)
        ensures
            s@ == joined(
                Seq::new(self@.pointers().len(), |i: int| stacks_text(self@.pointers()[i])),
                seq!['\n'],
            ),
    {
        let mut parts: Vec<Vec<char>> = Vec::new();
        let mut i: usize = 0;
        while i < self.ips.len()
            invariant
                i <= self.ips.len(),
                parts@.len() == i,
                forall|k: int| 0 <= k < i ==> (#[trigger] parts@[k])@ == stacks_text(self.ips@[k]@),
            decreases self.ips.len() - i,
        {
            parts.push(stacks_string(&self.ips[i]));
            i = i + 1;
        }
        let mut j: usize = self.todo.len();
        while j > 0
            invariant
                j <= self.todo.len(),
                parts@.len() == self.ips@.len() + (self.todo@.len() - j),
                forall|k: int|
                    0 <= k < self.ips@.len() ==> (#[trigger] parts@[k])@ == stacks_text(
                        self.ips@[k]@,
                    ),
                forall|k: int|
                    0 <= k < self.todo@.len() - j ==> (#[trigger] parts@[self.ips@.len() + k])@
                        == stacks_text(self.todo@[self.todo@.len() - 1 - k]@),
            decreases j,
        {
            j = j - 1;
            parts.push(stacks_string(&self.todo[j]));
        }
        assert forall|i: int| 0 <= i < parts@.len() implies (#[trigger] parts@[i])@ == stacks_text(
            self@.pointers()[i],
        ) by {
            if i >= self.ips@.len() {
                let k = i - self.ips@.len();
                assert(parts@[self.ips@.len() + k] == parts@[i]);
            }
        }
        assert(rows(parts@) =~= Seq::new(
            self@.pointers().len(),
            |i: int| stacks_text(self@.pointers()[i]),
        ));
        let mut sep: Vec<char> = Vec::new();
        sep.push('\n');
        assert(sep@ =~= seq!['\n']);
        string_of(&join_rows(&parts, &sep))
    }

    /// Takes what the program has written since the output was last taken.
    pub fn take_output(&mut self) -> (s: String)
        ensures
            s@ == joined(old(self)@.world.output, Seq::empty()),
            final(self)@ == (FungeState {
                world: WorldState { output: Seq::empty(), ..old(self)@.world },
                ..old(self)@
            }),
            old(self).wf() ==> final(self).wf(),
    {
        let s = self.world.output.get();
        self.world.output = IO::new();
        s
    }
}

} // verus!
