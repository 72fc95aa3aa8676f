//! The debug harness: an engine with its undo history, a run flag and a
//! breakpoint.

use vstd::prelude::*;
use crate::chance::{moment_ok, turns_ok};
use crate::engine::{tick_of, Funge, FungeState, Halt};
use crate::history::{remembered, undone, DeltaState, FungeHist};
use crate::host::{Moment, Reply};

verus! {

/// Whether every step held can be taken back to a well-formed state, the
/// last one from `cur`.
pub open spec fn rewinds(cur: FungeState, deltas: Seq<DeltaState>) -> bool
    decreases deltas.len(),
{
    deltas.len() == 0 || (undone(cur, deltas.last()).wf() && rewinds(
        undone(cur, deltas.last()),
        deltas.drop_last(),
    ))
}

/// Letting the oldest step go leaves the others to be taken back.
pub proof fn lemma_rewinds_without_first(cur: FungeState, deltas: Seq<DeltaState>)
    requires
        rewinds(cur, deltas),
        deltas.len() > 0,
    ensures
        rewinds(cur, deltas.drop_first()),
    decreases deltas.len(),
{
    if deltas.len() > 1 {
        lemma_rewinds_without_first(undone(cur, deltas.last()), deltas.drop_last());
        assert(deltas.drop_first().drop_last() == deltas.drop_last().drop_first());
        assert(deltas.drop_first().last() == deltas.last());
    }
}

/// Whether a pointer stands on a cell that holds `op`.
pub open spec fn on_op(s: FungeState, op: i128) -> bool {
    exists|i: int| 0 <= i < s.pointers().len() && s.world.space[(#[trigger] s.pointers()[i]).position] == op
}

/// The shortest time a step of a run is given, in microseconds.
pub const SHORTEST: u64 = 1000;

/// A key of the harness.
#[derive(Clone, Copy, Debug, PartialEq, Eq, Structural)]
pub enum Key {
    Esc,
    Enter,
    Space,
    Backspace,
    Up,
    Down,
    /// Any other key that gives a character.
    Char(char),
    /// Any other key.
    Other,
}

/// What a key came to.
#[derive(Clone, Copy, Debug, PartialEq, Eq, Structural)]
pub enum Pressed {
    /// The key is not one of the harness.
    Ignored,
    /// The key has done its work.
    Done,
    /// The key has done its work, and a run is to start.
    Run,
}

/// An engine that can be stepped forward and back.
#[derive(Debug)]
pub struct FungeDebug {
    /// The engine, or how its run ended.
    pub funge: Option<Result<Funge, Halt>>,
    pub history: FungeHist,
    /// The time that a step of a run is given, in microseconds.
    pub interval: u64,
    /// Whether the engine is to go on running.
    pub running: bool,
    /// The opcode at which a run is to stop.
    pub stop_op: Option<i128>,
}

/// Whether `after` is the harness one tick forward of `before`, with the
/// time and the random turns given. Where the tick gives a state, the engine
/// is in it and the history holds what tells how it came of the one before,
/// without its oldest step where that makes more than it holds. Where the
/// tick ends the run, the harness holds how it ended, and the history keeps
/// the state before it. An engine that has ended stays as it is.
pub open spec fn ticks_to(before: FungeDebug, after: FungeDebug, now: Moment, dirs: Seq<u8>) -> bool {
    &&& after.running == before.running
    &&& after.stop_op == before.stop_op
    &&& after.interval == before.interval
    &&& after.history.maxlen == before.history.maxlen
    &&& match before.funge {
        Some(Ok(f)) => match tick_of(f@, now, dirs) {
            Ok(s) => {
                &&& after.funge matches Some(Ok(g))
                &&& g@ == s
                &&& after.history.last == before.history.last
                &&& exists|d: DeltaState|
                    d.tells(f@, s) && undone(s, d) == f@ && after.history.deltas()
                        == #[trigger] remembered(
                        before.history.deltas(),
                        d,
                        before.history.maxlen as nat,
                    )
            },
            Err(h) => {
                &&& after.funge matches Some(Err(x))
                &&& x@ == h
                &&& after.history.deltas() == before.history.deltas()
                &&& after.history.last is Some
                &&& after.history.last->0@ == f@
            },
        },
        _ => after == before,
    }
}

/// Whether `after` is the harness one step forward of `before`: one tick,
/// at some time of day and with some random turns.
pub open spec fn steps_to(before: FungeDebug, after: FungeDebug) -> bool {
    exists|now: Moment, dirs: Seq<u8>|
        moment_ok(now) && turns_ok(dirs) && #[trigger] ticks_to(before, after, now, dirs)
}

/// Whether `after` is the harness one step back of `before`, its run
/// stopped: the last step held is taken back, or nothing where none is held;
/// from a failure the engine is in the state before it.
pub open spec fn steps_back_to(before: FungeDebug, after: FungeDebug) -> bool {
    &&& !after.running
    &&& after.stop_op == before.stop_op
    &&& after.interval == before.interval
    &&& match before.funge {
        Some(Ok(f)) => after.funge matches Some(Ok(g)) && (if before.history.deltas().len() > 0 {
            g@ == undone(f@, before.history.deltas().last()) && after.history.deltas()
                == before.history.deltas().drop_last()
        } else {
            g == f && after.history.deltas() == before.history.deltas()
        }),
        Some(Err(_)) => after.funge matches Some(Ok(g)) && g == before.history.last->0
            && after.history.deltas() == before.history.deltas(),
        None => after.funge is None && after.history == before.history,
    }
}

impl FungeDebug {
    /// The engine is well formed, the steps held can be taken back from
    /// it, and the state before a failure is kept.
    pub open spec fn wf(&self) -> bool {
        match self.funge {
            Some(Ok(f)) => f.wf() && rewinds(f@, self.history.deltas()),
            Some(Err(_)) => self.history.last is Some && self.history.last->0.wf() && rewinds(
                self.history.last->0@,
                self.history.deltas(),
            ),
            None => true,
        }
    }

    /// Whether a run goes on: the flag is set, the engine runs, and no
    /// pointer stands on the breakpoint.
    pub open spec fn keeps_running(&self) -> bool {
        self.running && (match self.funge {
            Some(Ok(f)) => match self.stop_op {
                Some(op) => !on_op(f@, op),
                None => true,
            },
            _ => false,
        })
    }

    /// Whether a run stops because a pointer stands on the breakpoint.
    pub open spec fn stops_at_breakpoint(&self) -> bool {
        self.running && (match (self.funge, self.stop_op) {
            (Some(Ok(f)), Some(op)) => on_op(f@, op),
            _ => false,
        })
    }

    /// A harness for `funge`, with no step held, not running.
    pub fn new(funge: Funge) -> (d: Self)
        requires
            funge.wf(),
        ensures
            d.wf(),
            d.funge == Some(Ok::<Funge, Halt>(funge)),
            d.history.deltas().len() == 0,
            d.interval == 50000,
            !d.running,
            d.stop_op is None,
    {
        FungeDebug {
            funge: Some(Ok(funge)),
            history: FungeHist::new(),
            interval: 50000,
            running: false,
            stop_op: None,
        }
    }

    /// One tick forward, with the time and the random turns given, which
    /// the history records. An engine that has ended stays as it is.
    pub fn tick(&mut self, now: Moment, dirs: &Vec<u8>)
        requires
            old(self).wf(),
        ensures
            final(self).wf(),
            ticks_to(*old(self), *final(self), now, dirs@),
    {
        let mut state: Option<Result<Funge, Halt>> = None;
        std::mem::swap(&mut state, &mut self.funge);
        match state {
            Some(Ok(funge)) => {
                let prior = funge.duplicate();
                let next = funge.tick(now, dirs);
                let ghost before = self.history.deltas();
                self.history.push(&prior, &next);
                proof {
                    match &next {
                        Ok(g) => {
                            let d = choose|d: DeltaState|
                                d.tells(prior@, g@) && undone(g@, d) == prior@
                                    && self.history.deltas() == #[trigger] remembered(
                                    before,
                                    d,
                                    old(self).history.maxlen as nat,
                                );
                            assert(before.push(d).drop_last() == before);
                            assert(rewinds(g@, before.push(d)));
                            if before.len() + 1 > old(self).history.maxlen {
                                lemma_rewinds_without_first(g@, before.push(d));
                            }
                        },
                        Err(_) => {},
                    }
                }
                self.funge = Some(next);
            },
            other => {
                self.funge = other;
            },
        }
    }

    /// One step forward: a tick at the time of day it is, with a random
    /// turn drawn for every pointer. An engine that has ended stays as it
    /// is.
    pub fn step(&mut self)
        requires
            old(self).wf(),
        ensures
            final(self).wf(),
            steps_to(*old(self), *final(self)),
    {
        let now_and_dirs = match &self.funge {
            Some(Ok(funge)) => Some(funge.chance()),
            _ => None,
        };
        match now_and_dirs {
            Some((now, dirs)) => {
                self.tick(now, &dirs);
                assert(ticks_to(*old(self), *self, now, dirs@));
            },
            None => {
                proof {
                    let noon = Moment { year: 2000, month: 1, day: 1, hour: 12, minute: 0, second: 0 };
                    assert(ticks_to(*old(self), *self, noon, Seq::<u8>::empty()));
                }
            },
        }
    }

    /// One step back, and the run stops. From a failure the engine goes
    /// back to the state before it.
    pub fn step_back(&mut self)
        requires
            old(self).wf(),
        ensures
            final(self).wf(),
            steps_back_to(*old(self), *final(self)),
    {
        self.running = false;
        let mut state: Option<Result<Funge, Halt>> = None;
        std::mem::swap(&mut state, &mut self.funge);
        match state {
            Some(cur) => {
                let back = self.history.pop(cur);
                self.funge = Some(Ok(back));
            },
            None => {},
        }
    }

    /// Whether the run goes on. It stops when the flag is not set or the
    /// engine has ended, and when a pointer stands on the breakpoint, which
    /// is then taken away.
    pub fn is_running(&mut self) -> (b: bool)
        requires
            old(self).wf(),
        ensures
            b == old(self).keeps_running(),
            final(self).running == b,
            final(self).funge == old(self).funge,
            final(self).history == old(self).history,
            final(self).interval == old(self).interval,
            final(self).stop_op == (if old(self).stops_at_breakpoint() {
                None
            } else {
                old(self).stop_op
            }),
    {
        let mut running = false;
        if self.running {
            match &self.funge {
                Some(Ok(f)) => {
                    running = true;
                    match self.stop_op {
                        Some(op) => {
                            if stands_on(f, op) {
                                running = false;
                                self.stop_op = None;
                            }
                        },
                        None => {},
                    }
                },
                _ => {},
            }
        }
        self.running = running;
        running
    }

    /// Hands the host's answer to an engine that waits for it.
    pub fn answer(&mut self, reply: Reply)
        requires
            old(self).wf(),
        ensures
            final(self).running == old(self).running,
            final(self).stop_op == old(self).stop_op,
            final(self).history == old(self).history,
            final(self).interval == old(self).interval,
            final(self).wf(),
            match old(self).funge {
                Some(Ok(f)) => final(self).funge matches Some(Ok(g)) && g@ == (FungeState {
                    world: crate::world::WorldState {
                        replies: f@.world.replies.push(reply@),
                        ..f@.world
                    },
                    pending: None,
                    ..f@
                }) && g.wf(),
                _ => final(self).funge == old(self).funge,
            },
    {
        let mut state: Option<Result<Funge, Halt>> = None;
        std::mem::swap(&mut state, &mut self.funge);
        match state {
            Some(Ok(funge)) => {
                self.funge = Some(Ok(funge.answer(reply)));
            },
            other => {
                self.funge = other;
            },
        }
    }
}

impl FungeDebug {
    /// Halves the time that a step of a run is given, down to a
    /// millisecond.
    pub fn faster(&mut self)
        ensures
            *final(self) == (FungeDebug {
                interval: if old(self).interval / 2 < SHORTEST {
                    SHORTEST
                } else {
                    old(self).interval / 2
                },
                ..*old(self)
            }),
    {
        let half = self.interval / 2;
        self.interval = if half < SHORTEST {
            SHORTEST
        } else {
            half
        };
    }

    /// Doubles the time that a step of a run is given, as far as it can be
    /// counted.
    pub fn slower(&mut self)
        ensures
            *final(self) == (FungeDebug {
                interval: if old(self).interval > u64::MAX / 2 {
                    u64::MAX
                } else {
                    (old(self).interval * 2) as u64
                },
                ..*old(self)
            }),
    {
        self.interval = if self.interval > u64::MAX / 2 {
            u64::MAX
        } else {
            self.interval * 2
        };
    }

    /// What a key does. Enter steps forward and Backspace back. Space stops
    /// a run, or starts one. Up halves the time of a step and Down doubles
    /// it. A character sets the breakpoint to its opcode and starts a run.
    /// Esc and the other keys are left to the window.
    pub fn press(&mut self, key: Key) -> (r: Pressed)
        requires
            old(self).wf(),
        ensures
            final(self).wf(),
            match key {
                Key::Enter => r == Pressed::Done && steps_to(*old(self), *final(self)),
                Key::Backspace => r == Pressed::Done && steps_back_to(*old(self), *final(self)),
                Key::Space => *final(self) == (FungeDebug {
                    running: !old(self).running,
                    ..*old(self)
                }) && r == (if old(self).running {
                    Pressed::Done
                } else {
                    Pressed::Run
                }),
                Key::Up => r == Pressed::Done && *final(self) == (FungeDebug {
                    interval: if old(self).interval / 2 < SHORTEST {
                        SHORTEST
                    } else {
                        old(self).interval / 2
                    },
                    ..*old(self)
                }),
                Key::Down => r == Pressed::Done && *final(self) == (FungeDebug {
                    interval: if old(self).interval > u64::MAX / 2 {
                        u64::MAX
                    } else {
                        (old(self).interval * 2) as u64
                    },
                    ..*old(self)
                }),
                Key::Char(c) => r == Pressed::Run && *final(self) == (FungeDebug {
                    running: true,
                    stop_op: Some(c as i128),
                    ..*old(self)
                }),
                Key::Esc => r == Pressed::Ignored && *final(self) == *old(self),
                Key::Other => r == Pressed::Ignored && *final(self) == *old(self),
            },
    {
        match key {
            Key::Enter => {
                self.step();
                Pressed::Done
            },
            Key::Backspace => {
                self.step_back();
                Pressed::Done
            },
            Key::Space => {
                if self.running {
                    self.running = false;
                    Pressed::Done
                } else {
                    self.running = true;
                    Pressed::Run
                }
            },
            Key::Up => {
                self.faster();
                Pressed::Done
            },
            Key::Down => {
                self.slower();
                Pressed::Done
            },
            Key::Char(c) => {
                self.stop_op = Some(crate::text::code_point(c) as i128);
                self.running = true;
                Pressed::Run
            },
            Key::Esc => Pressed::Ignored,
            Key::Other => Pressed::Ignored,
        }
    }
}

/// Whether a pointer of the engine stands on a cell that holds `op`.
pub fn stands_on(f: &Funge, op: i128) -> (b: bool)
    requires
        f.wf(),
    ensures
        b == on_op(f@, op),
{
    let mut i: usize = 0;
    while i < f.ips.len()
        invariant
            f.wf(),
            i <= f.ips.len(),
            forall|k: int| 0 <= k < i ==> f@.world.space[(#[trigger] f@.ips[k]).position] != op,
        decreases f.ips.len() - i,
    {
        if f.world.code.read(f.ips[i].position) == op {
            assert(f@.pointers()[i as int] == f@.ips[i as int]);
            return true;
        }
        i = i + 1;
    }
    let mut j: usize = 0;
    while j < f.todo.len()
        invariant
            f.wf(),
            j <= f.todo.len(),
            forall|k: int| 0 <= k < f@.ips.len() ==> f@.world.space[(#[trigger] f@.ips[k]).position] != op,
            forall|k: int| 0 <= k < j ==> f@.world.space[(#[trigger] f.todo@[k])@.position] != op,
        decreases f.todo.len() - j,
    {
        if f.world.code.read(f.todo[j].position) == op {
            let ghost at = f@.ips.len() + (f.todo@.len() - 1 - j);
            assert(f@.todo[f.todo@.len() - 1 - j] == f.todo@[j as int]@);
            assert(f@.pointers()[at] == f.todo@[j as int]@);
            return true;
        }
        j = j + 1;
    }
    assert forall|k: int| 0 <= k < f@.pointers().len() implies f@.world.space[(
    #[trigger] f@.pointers()[k]).position] != op by {
        if k >= f@.ips.len() {
            let t = k - f@.ips.len();
            assert(f@.pointers()[k] == f@.todo[t]);
            assert(f@.todo[t] == f.todo@[f.todo@.len() - 1 - t]@);
        } else {
            assert(f@.pointers()[k] == f@.ips[k]);
        }
    }
    false
}

} // verus!
