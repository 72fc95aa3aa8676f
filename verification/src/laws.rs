//! What holds of the engine whatever the program.

use vstd::prelude::*;
use crate::cell::valid_bits;
use crate::engine::{tick_of, FungeState};
use crate::geometry::{Pos, Rect};
use crate::history::{remembered, undone, DeltaState};
use crate::host::Moment;
use crate::error::FungeError;
use crate::ip::{
    advanced, farthest_back, lemma_pass_lands, next_pos_of, next_valid_of, pass_spaces, patience,
    reflected, shifted, IpState, SEMICOLON,
};
use crate::rules::permits;
use crate::semantics::{
    all_advanced, begin_block, end_block, executed, fork, hopped, iterated, plain, stepped,
    Outcome,
};
use crate::space::SPACE;
use crate::stack::{drop, peek};
use crate::world::WorldState;

verus! {

/// A cell outside the extent holds a space.
pub proof fn law_blank_outside_extent(w: WorldState, p: Pos)
    requires
        w.wf(),
        !w.extent.has(p),
    ensures
        w.space[p] == SPACE,
{
}

/// A block that is opened with a count that is not negative and no larger
/// than the stack is high, and closed with the same count, leaves the stacks
/// and the offset as they were when the count was popped.
pub proof fn law_block_round_trip(ip: IpState, w: WorldState)
    requires
        valid_bits(w.bits),
        begin_block(ip, w) is Done,
        0 <= peek(ip.toss, 0) <= drop(ip.toss, 1).len(),
    ensures
        ({
            let n = peek(ip.toss, 0);
            let opened = begin_block(ip, w)->ips[0];
            let closed = end_block(IpState { toss: opened.toss.push(n), ..opened }, w);
            &&& closed matches Outcome::Done { world, ips, skip }
            &&& world == w
            &&& ips.len() == 1
            &&& ips[0].toss == drop(ip.toss, 1)
            &&& ips[0].lower == ip.lower
            &&& ips[0].offset == ip.offset
        }),
{
    let n = peek(ip.toss, 0);
    let rest = drop(ip.toss, 1);
    let opened = begin_block(ip, w)->ips[0];
    let again = IpState { toss: opened.toss.push(n), ..opened };
    let closed = end_block(again, w);
    assert(again.lower.last() == opened.lower.last());
    assert(drop(again.toss, 1) =~= opened.toss);
    assert(again.lower.drop_last() =~= ip.lower);
    let below = opened.lower.last();
    if n > 0 {
        assert(drop(below, 2) =~= drop(rest, n as int));
        assert(drop(rest, n as int) + crate::stack::top_cells(opened.toss, n as nat) =~= rest);
    } else {
        assert(drop(below, 2) =~= rest);
        assert(rest + crate::stack::zeros(0) =~= rest);
    }
}

/// In stringmode a run of spaces counts once: a step from a space pushes
/// one space, and leaves the pointer on a cell that holds none.
pub proof fn law_spaces_fold(ip: IpState, w: WorldState, now: Moment, dir: u8)
    requires
        w.wf(),
        ip.string_mode,
        w.space[ip.position] == SPACE,
        stepped(ip, w, now, dir) is Done,
    ensures
        ({
            let after = stepped(ip, w, now, dir);
            &&& after->world == w
            &&& after->ips.len() == 1
            &&& after->ips[0].toss == ip.toss.push(SPACE)
            &&& after->ips[0].string_mode
            &&& w.space[after->ips[0].position] != SPACE
        }),
{
    let pushed = IpState { toss: ip.toss.push(SPACE), ..ip };
    let ips = seq![pushed];
    assert(all_advanced(ips, w, false, 0) == Ok::<Seq<IpState>, crate::error::FungeError>(
        Seq::empty(),
    ));
    assert(all_advanced(ips, w, false, 1) == (match advanced(pushed, w, false) {
        Err(e) => Err(e),
        Ok(next) => Ok(Seq::<IpState>::empty().push(next)),
    }));
    lemma_pass_lands(w.space, w.extent, ip.position, ip.delta, patience(w.extent));
}

/// `k` with the count 0 runs nothing: the world stays as it is, the count
/// is popped, and the pointer goes on from the instruction that follows,
/// as if it had run it.
pub proof fn law_iterate_zero(ip: IpState, w: WorldState, now: Moment, dir: u8, depth: nat, bound: nat)
    requires
        peek(ip.toss, 0) == 0,
    ensures
        ({
            let popped = IpState { toss: drop(ip.toss, 1), ..ip };
            iterated(ip, w, now, dir, depth, bound) == (match next_valid_of(popped, w, false) {
                Ok(p) => Outcome::Done {
                    world: w,
                    ips: seq![IpState { position: p, ..popped }],
                    skip: true,
                },
                Err(e) => Outcome::Failed(e),
            })
        }),
{
}

/// The number of cells of the walk from `p` by `-d` that stay inside `e`.
pub open spec fn walk_back(p: Pos, d: Pos, e: Rect) -> nat
    decreases crate::ip::back_room(p, d, e),
{
    if (d.x != 0 || d.y != 0) && e.holds(p.x - d.x, p.y - d.y) {
        1 + walk_back(Pos { x: (p.x - d.x) as isize, y: (p.y - d.y) as isize }, d, e)
    } else {
        0
    }
}

/// The walk against the delta: it ends `walk_back` steps from its start,
/// every cell of it lies inside the extent, and one step more does not.
pub proof fn lemma_walk_back(p: Pos, d: Pos, e: Rect)
    ensures
        ({
            let k = walk_back(p, d, e) as int;
            let r = farthest_back(p, d, e);
            &&& r.x == p.x - k * d.x
            &&& r.y == p.y - k * d.y
            &&& (d.x != 0 || d.y != 0) ==> !e.holds(r.x - d.x, r.y - d.y)
            &&& forall|j: int| 1 <= j <= k ==> e.holds(p.x - #[trigger] (j * d.x), p.y - j * d.y)
        }),
    decreases crate::ip::back_room(p, d, e),
{
    if (d.x != 0 || d.y != 0) && e.holds(p.x - d.x, p.y - d.y) {
        let q = Pos { x: (p.x - d.x) as isize, y: (p.y - d.y) as isize };
        lemma_walk_back(q, d, e);
        let k = walk_back(q, d, e) as int;
        let dx = d.x as int;
        let dy = d.y as int;
        assert((k + 1) * dx == k * dx + dx) by (nonlinear_arith);
        assert((k + 1) * dy == k * dy + dy) by (nonlinear_arith);
        assert forall|j: int| 1 <= j <= k + 1 implies e.holds(
            p.x - #[trigger] (j * d.x),
            p.y - j * d.y,
        ) by {
            if j == 1 {
                assert(1 * dx == dx) by (nonlinear_arith);
                assert(1 * dy == dy) by (nonlinear_arith);
            } else {
                let i = j - 1;
                assert(e.holds(q.x - i * d.x, q.y - i * d.y));
                assert(j * dx == i * dx + dx) by (nonlinear_arith)
                    requires
                        j == i + 1,
                ;
                assert(j * dy == i * dy + dy) by (nonlinear_arith)
                    requires
                        j == i + 1,
                ;
            }
        }
    } else {
        assert(0 * (d.x as int) == 0) by (nonlinear_arith);
        assert(0 * (d.y as int) == 0) by (nonlinear_arith);
    }
}

/// The wrap of Lahey-space: a pointer one step past the extent lands on
/// the last cell of the walk against its delta that stays inside the
/// extent. It is some steps back, inside the extent as every cell of the walk
/// is, and one step further back is outside.
pub proof fn law_lahey_wrap(p: Pos, d: Pos, e: Rect)
    requires
        !e.has(p),
        e.holds(p.x - d.x, p.y - d.y),
    ensures
        ({
            let k = walk_back(p, d, e) as int;
            &&& next_pos_of(p, d, e) matches Some(r)
            &&& k >= 1
            &&& r.x == p.x - k * d.x
            &&& r.y == p.y - k * d.y
            &&& e.has(r)
            &&& !e.holds(r.x - d.x, r.y - d.y)
            &&& forall|j: int| 1 <= j <= k ==> e.holds(p.x - #[trigger] (j * d.x), p.y - j * d.y)
        }),
{
    lemma_walk_back(p, d, e);
    let k = walk_back(p, d, e) as int;
    assert(e.holds(p.x - k * d.x, p.y - k * d.y));
}

/// The state after `count` steps are taken back, the last of `deltas`
/// first; a history that holds no step leaves the state as it is.
pub open spec fn rewound(cur: FungeState, deltas: Seq<DeltaState>, count: nat) -> FungeState
    decreases count,
{
    if count == 0 || deltas.len() == 0 {
        cur
    } else {
        rewound(undone(cur, deltas.last()), deltas.drop_last(), (count - 1) as nat)
    }
}

/// The history after the first `upto` of `deltas` are recorded in it.
pub open spec fn recorded_all(
    history: Seq<DeltaState>,
    deltas: Seq<DeltaState>,
    maxlen: nat,
    upto: nat,
) -> Seq<DeltaState>
    decreases upto,
{
    if upto == 0 {
        history
    } else {
        remembered(
            recorded_all(history, deltas, maxlen, (upto - 1) as nat),
            deltas[upto - 1],
            maxlen,
        )
    }
}

/// A history that starts empty and has room holds the steps as they came.
pub proof fn lemma_recorded_all(deltas: Seq<DeltaState>, maxlen: nat, upto: nat)
    requires
        upto <= deltas.len(),
        upto <= maxlen,
    ensures
        recorded_all(Seq::empty(), deltas, maxlen, upto) == deltas.take(upto as int),
    decreases upto,
{
    if upto > 0 {
        lemma_recorded_all(deltas, maxlen, (upto - 1) as nat);
        assert(deltas.take(upto - 1).push(deltas[upto - 1]) == deltas.take(upto as int));
    } else {
        assert(deltas.take(0) == Seq::<DeltaState>::empty());
    }
}

/// Taking back the last `count` steps of a recorded run leads to the
/// state that many steps before its end.
pub proof fn lemma_rewound(states: Seq<FungeState>, deltas: Seq<DeltaState>, count: nat)
    requires
        states.len() == deltas.len() + 1,
        count <= deltas.len(),
        forall|i: int| 0 <= i < deltas.len() ==> undone(states[i + 1], #[trigger] deltas[i]) == states[i],
    ensures
        rewound(states.last(), deltas, count) == states[deltas.len() - count],
    decreases count,
{
    if count > 0 {
        let n = deltas.len() as int;
        assert(undone(states[n], deltas[n - 1]) == states[n - 1]);
        let fewer = deltas.drop_last();
        let before = states.drop_last();
        assert forall|i: int| 0 <= i < fewer.len() implies undone(
            before[i + 1],
            #[trigger] fewer[i],
        ) == before[i] by {
            assert(fewer[i] == deltas[i]);
        }
        lemma_rewound(before, fewer, (count - 1) as nat);
        assert(before.last() == states[n - 1]);
        assert(before[fewer.len() - (count - 1)] == states[n - count]);
    }
}

/// The round trip of the history: when no more than `maxlen` steps are
/// recorded in an empty history, each with what takes it back, then taking
/// them all back from the last state gives the first state.
pub proof fn law_history_round_trip(states: Seq<FungeState>, deltas: Seq<DeltaState>, maxlen: nat)
    requires
        states.len() == deltas.len() + 1,
        deltas.len() <= maxlen,
        forall|i: int| 0 <= i < deltas.len() ==> undone(states[i + 1], #[trigger] deltas[i]) == states[i],
    ensures
        rewound(
            states.last(),
            recorded_all(Seq::empty(), deltas, maxlen, deltas.len()),
            deltas.len(),
        ) == states[0],
{
    lemma_recorded_all(deltas, maxlen, deltas.len());
    assert(deltas.take(deltas.len() as int) == deltas);
    lemma_rewound(states, deltas, deltas.len());
}

/// The round trip of a block, as the decoder runs it: for a pointer that is
/// not in stringmode, under a version that has `{` and `}` and with no
/// fingerprint bound to them, `{` with a count that is not negative and no
/// larger than the stack is high, the count pushed again and `}` leave the
/// stacks, the offset and the world as they were when the count was popped.
pub proof fn law_block_round_trip_run(
    ip: IpState,
    w: WorldState,
    now: Moment,
    dir: u8,
    depth: nat,
    bound: nat,
)
    requires
        valid_bits(w.bits),
        !ip.string_mode,
        !ip.fingerprints.contains(123),
        !ip.fingerprints.contains(125),
        permits(w.rules.version, 123),
        permits(w.rules.version, 125),
        executed(ip, w, 123, now, dir, depth, bound) is Done,
        0 <= peek(ip.toss, 0) <= drop(ip.toss, 1).len(),
    ensures
        ({
            let n = peek(ip.toss, 0);
            let first = executed(ip, w, 123, now, dir, depth, bound);
            let opened = first->ips[0];
            let closed = executed(
                IpState { toss: opened.toss.push(n), ..opened },
                w,
                125,
                now,
                dir,
                depth,
                bound,
            );
            &&& first->world == w
            &&& first->ips.len() == 1
            &&& closed matches Outcome::Done { world, ips, skip }
            &&& world == w
            &&& ips.len() == 1
            &&& ips[0].toss == drop(ip.toss, 1)
            &&& ips[0].lower == ip.lower
            &&& ips[0].offset == ip.offset
        }),
{
    reveal(plain);
    law_block_round_trip(ip, w);
}

/// `k` with the count 0 before an instruction that stands on the next cell:
/// the pointer is put on that cell with the count popped, and is to move
/// off it, so that the instruction is passed and not run. The world stays
/// as it is and no pointer is made.
pub proof fn law_iterate_zero_passes_neighbour(
    ip: IpState,
    w: WorldState,
    now: Moment,
    dir: u8,
    depth: nat,
    bound: nat,
)
    requires
        peek(ip.toss, 0) == 0,
        !ip.string_mode,
        w.extent.has(ip.position),
        w.space[ip.position] == 107,
        shifted(ip.position, ip.delta) matches Some(q) && w.space[q] != SPACE && w.space[q]
            != SEMICOLON,
    ensures
        iterated(ip, w, now, dir, depth, bound) == (Outcome::Done {
            world: w,
            ips: seq![
                IpState {
                    position: shifted(ip.position, ip.delta)->0,
                    toss: drop(ip.toss, 1),
                    ..ip
                },
            ],
            skip: true,
        }),
{
}

/// A step back from a tick that ran to its end counts one step less.
pub proof fn law_step_back_counts(
    before: FungeState,
    now: Moment,
    dirs: Seq<u8>,
    d: DeltaState,
)
    requires
        tick_of(before, now, dirs) matches Ok(after) && after.pending is None && d.tells(
            before,
            after,
        ),
    ensures
        undone(tick_of(before, now, dirs)->Ok_0, d).steps == tick_of(before, now, dirs)->Ok_0.steps
            - 1,
{
    reveal(tick_of);
}

/// The pointer that `t` makes has an id that no live pointer has: the
/// pointer that ran `t` goes on as it is, and the new one has its position,
/// offset and stacks, the opposite delta, and the next id.
pub proof fn law_fork_takes_a_new_id(s: FungeState, i: int)
    requires
        s.wf(),
        0 <= i < s.pointers().len(),
        fork(s.pointers()[i], s.world) is Done,
    ensures
        ({
            let ip = s.pointers()[i];
            let made = fork(ip, s.world)->ips;
            &&& made.len() == 2
            &&& made[0] == ip
            &&& made[1] == (IpState { id: made[1].id, delta: reflected(ip.delta), ..ip })
            &&& forall|j: int| 0 <= j < s.pointers().len() ==> made[1].id != (#[trigger] s.pointers()[j]).id
            &&& made[1].id < fork(ip, s.world)->world.next_id
        }),
{
}

/// The pass over spaces ends on the first cell of the pointer's path that
/// holds no space: where the cell `k` moves on is the first such, every
/// cell before it holds a space, and `k` moves are within the moves given,
/// the pass ends there.
pub proof fn law_spaces_pass_to_first(w: WorldState, p: Pos, d: Pos, k: nat, fuel: nat)
    requires
        k < fuel,
        forall|j: nat| j <= k ==> (#[trigger] hopped(p, d, w, j)) is Some,
        forall|j: nat| j < k ==> w.space[(#[trigger] hopped(p, d, w, j))->0] == SPACE,
        w.space[hopped(p, d, w, k)->0] != SPACE,
    ensures
        pass_spaces(w.space, w.extent, p, d, fuel) == Ok::<Pos, FungeError>(hopped(p, d, w, k)->0),
    decreases k,
{
    assert(hopped(p, d, w, 0) == Some(p));
    if k > 0 {
        assert(hopped(p, d, w, 1) is Some);
        let q = next_pos_of(p, d, w.extent)->0;
        assert(hopped(q, d, w, 0) == Some(q));
        assert forall|j: nat| j <= k - 1 implies (#[trigger] hopped(q, d, w, j)) is Some by {
            assert(hopped(p, d, w, j + 1) == hopped(q, d, w, j));
        }
        assert forall|j: nat| j < k - 1 implies w.space[(#[trigger] hopped(q, d, w, j))->0]
            == SPACE by {
            assert(hopped(p, d, w, j + 1) == hopped(q, d, w, j));
        }
        assert(hopped(p, d, w, k) == hopped(q, d, w, (k - 1) as nat));
        law_spaces_pass_to_first(w, q, d, (k - 1) as nat, (fuel - 1) as nat);
    }
}

} // verus!
