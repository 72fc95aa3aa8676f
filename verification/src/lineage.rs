//! The ids of the instruction pointers: no two live pointers share one.

use vstd::prelude::*;
use crate::host::Moment;
use crate::ip::{next_valid_of, IpState};
use crate::rules::permits;
use crate::semantics::{
    all_advanced, block_written, executed, is_stack_op, is_steer_op, iterated, plain, round,
    rounds, row_written, stepped, to_isize, first_bound, Outcome, MAX_DEPTH,
};
use crate::stack::{drop, peek};
use crate::world::WorldState;

verus! {

/// Whether no two of the pointers have the same id.
pub open spec fn ids_differ(ips: Seq<IpState>) -> bool {
    forall|i: int, j: int|
        0 <= i < ips.len() && 0 <= j < ips.len() && i != j ==> (#[trigger] ips[i]).id != (
        #[trigger] ips[j]).id
}

/// Whether the id of each pointer is below `bound`.
pub open spec fn ids_below(ips: Seq<IpState>, bound: usize) -> bool {
    forall|k: int| 0 <= k < ips.len() ==> (#[trigger] ips[k]).id < bound
}

/// Whether the pointers are one pointer with the id `a` and pointers made
/// since the next id was `lo`: no two have the same id, and each has the id
/// `a` or one from `lo` to below `hi`.
pub open spec fn clan(ips: Seq<IpState>, a: usize, lo: usize, hi: usize) -> bool {
    &&& ids_differ(ips)
    &&& forall|k: int| 0 <= k < ips.len() ==> (#[trigger] ips[k]).id == a || lo <= ips[k].id < hi
}

/// Whether an instruction that ran left a clan of the pointer with the id
/// `a`, with ids taken from `lo` on, and the next id above them all.
pub open spec fn breeds(o: Outcome, a: usize, lo: usize) -> bool {
    o matches Outcome::Done { world, ips, skip } ==> lo <= world.next_id && clan(
        ips,
        a,
        lo,
        world.next_id,
    )
}

/// Writing a row makes no pointer.
pub proof fn lemma_row_written_id(w: WorldState, row: Seq<char>, x0: isize, y: isize, upto: nat)
    ensures
        row_written(w, row, x0, y, upto) matches Ok(w1) ==> w1.next_id == w.next_id,
    decreases upto,
{
    if upto > 0 {
        lemma_row_written_id(w, row, x0, y, (upto - 1) as nat);
    }
}

/// Writing a block makes no pointer.
pub proof fn lemma_block_written_id(
    w: WorldState,
    block: Seq<Seq<char>>,
    x0: isize,
    y0: isize,
    upto: nat,
)
    ensures
        block_written(w, block, x0, y0, upto) matches Ok(w1) ==> w1.next_id == w.next_id,
    decreases upto,
{
    if upto > 0 {
        lemma_block_written_id(w, block, x0, y0, (upto - 1) as nat);
        match block_written(w, block, x0, y0, (upto - 1) as nat) {
            Ok(w1) => {
                if y0 + upto - 1 <= isize::MAX {
                    lemma_row_written_id(
                        w1,
                        block[upto - 1],
                        x0,
                        (y0 + upto - 1) as isize,
                        block[upto - 1].len(),
                    );
                }
            },
            Err(_) => {},
        }
    }
}

/// The pointers after one of `todo` has run: those in `done` and in the
/// rest of `todo` keep their ids, and what the one left has its id or new
/// ones, so that all still differ.
pub proof fn lemma_merge(
    done: Seq<IpState>,
    todo: Seq<IpState>,
    ips: Seq<IpState>,
    mid: usize,
    hi: usize,
)
    requires
        todo.len() > 0,
        ids_differ(done + todo),
        ids_below(done + todo, mid),
        mid <= hi,
        clan(ips, todo[0].id, mid, hi),
    ensures
        ids_differ((done + ips) + todo.drop_first()),
        ids_below((done + ips) + todo.drop_first(), hi),
{
    let all = done + todo;
    let next = (done + ips) + todo.drop_first();
    let n = done.len() as int;
    let m = ips.len() as int;
    assert(all[n] == todo[0]);
    assert forall|k: int| 0 <= k < next.len() implies (#[trigger] next[k]).id < hi && (if k < n {
        next[k] == all[k]
    } else if k < n + m {
        next[k] == ips[k - n]
    } else {
        next[k] == all[k - m + 1]
    }) by {
        if k < n {
            assert(next[k] == all[k]);
        } else if k < n + m {
            assert(next[k] == ips[k - n]);
        } else {
            assert(next[k] == todo.drop_first()[k - n - m]);
            assert(next[k] == all[k - m + 1]);
        }
    }
    assert forall|i: int, j: int| 0 <= i < next.len() && 0 <= j < next.len() && i != j implies (
    #[trigger] next[i]).id != (#[trigger] next[j]).id by {
        let oi = if i < n {
            i
        } else {
            i - m + 1
        };
        let oj = if j < n {
            j
        } else {
            j - m + 1
        };
        let new_i = n <= i < n + m;
        let new_j = n <= j < n + m;
        if new_i && new_j {
            assert(ips[i - n].id != ips[j - n].id);
        } else if new_i {
            assert(next[j] == all[oj]);
            assert(all[oj].id < mid);
            assert(all[oj].id != all[n].id);
            assert(next[i] == ips[i - n]);
        } else if new_j {
            assert(next[i] == all[oi]);
            assert(all[oi].id < mid);
            assert(all[oi].id != all[n].id);
            assert(next[j] == ips[j - n]);
        } else {
            assert(next[i] == all[oi]);
            assert(next[j] == all[oj]);
            assert(all[oi].id != all[oj].id);
        }
    }
}

/// Whether an instruction that ran left the pointer with the id `a` or
/// nothing, and the next id `lo`; or that pointer and one with the id `lo`,
/// and the next id one above.
pub open spec fn tame(o: Outcome, a: usize, lo: usize) -> bool {
    o matches Outcome::Done { world, ips, skip } ==> (world.next_id == lo && ips.len() <= 1 && (
    ips.len() == 1 ==> ips[0].id == a)) || (world.next_id == lo + 1 && ips.len() == 2 && ips[0].id
        == a && ips[1].id == lo)
}

/// The instructions on the stacks, the delta, the output and the cells
/// leave the pointer with its id.
proof fn lemma_tame_first(ip: IpState, w: WorldState, op: u8, now: Moment, dir: u8)
    requires
        is_stack_op(op) || is_steer_op(op) || op == 46 || op == 44 || op == 35 || op == 112 || op
            == 103 || op == 38 || op == 126 || op == 64 || op == 39,
    ensures
        tame(plain(ip, w, op, now, dir), ip.id, w.next_id),
{
    reveal(plain);
}

/// The instructions on the stack of stacks, the command, the fingerprints
/// and the jump leave the pointer with its id.
proof fn lemma_tame_second(ip: IpState, w: WorldState, op: u8, now: Moment, dir: u8)
    requires
        op == 123 || op == 125 || op == 61 || op == 40 || op == 41 || op == 106 || op == 113 || op
            == 115 || op == 117 || op == 120,
    ensures
        tame(plain(ip, w, op, now, dir), ip.id, w.next_id),
{
    reveal(plain);
}

/// The instructions on files and the system information leave the pointer
/// with its id.
proof fn lemma_tame_third(ip: IpState, w: WorldState, op: u8, now: Moment, dir: u8)
    requires
        op == 105 || op == 111 || op == 121,
    ensures
        tame(plain(ip, w, op, now, dir), ip.id, w.next_id),
{
    reveal(plain);
    if op == 105 {
        assert forall|w1: WorldState, block: Seq<Seq<char>>, x0: isize, y0: isize|
            (#[trigger] block_written(w1, block, x0, y0, block.len())) is Ok implies block_written(
            w1,
            block,
            x0,
            y0,
            block.len(),
        )->Ok_0.next_id == w1.next_id by {
            lemma_block_written_id(w1, block, x0, y0, block.len());
        }
    }
}

/// `t` leaves the pointer and one with the next id, and what is not
/// implemented leaves the pointer with its id.
proof fn lemma_tame_last(ip: IpState, w: WorldState, op: u8, now: Moment, dir: u8)
    requires
        !(is_stack_op(op) || is_steer_op(op) || op == 46 || op == 44 || op == 35 || op == 112 || op
            == 103 || op == 38 || op == 126 || op == 64 || op == 39),
        !(op == 123 || op == 125 || op == 61 || op == 40 || op == 41 || op == 106 || op == 113 || op
            == 115 || op == 117 || op == 120),
        !(op == 105 || op == 111 || op == 121),
    ensures
        tame(plain(ip, w, op, now, dir), ip.id, w.next_id),
{
    reveal(plain);
}

/// An instruction other than `k` leaves the pointer with its id, and `t`
/// one more with the next id.
pub proof fn lemma_plain_tame(ip: IpState, w: WorldState, op: u8, now: Moment, dir: u8)
    ensures
        tame(plain(ip, w, op, now, dir), ip.id, w.next_id),
{
    if is_stack_op(op) || is_steer_op(op) || op == 46 || op == 44 || op == 35 || op == 112 || op
        == 103 || op == 38 || op == 126 || op == 64 || op == 39 {
        lemma_tame_first(ip, w, op, now, dir);
    } else if op == 123 || op == 125 || op == 61 || op == 40 || op == 41 || op == 106 || op == 113
        || op == 115 || op == 117 || op == 120 {
        lemma_tame_second(ip, w, op, now, dir);
    } else if op == 105 || op == 111 || op == 121 {
        lemma_tame_third(ip, w, op, now, dir);
    } else {
        lemma_tame_last(ip, w, op, now, dir);
    }
}

/// An instruction other than `k` leaves a clan of the pointer that ran it.
pub proof fn lemma_plain_ids(ip: IpState, w: WorldState, op: u8, now: Moment, dir: u8)
    requires
        ip.id < w.next_id,
    ensures
        breeds(plain(ip, w, op, now, dir), ip.id, w.next_id),
{
    lemma_plain_tame(ip, w, op, now, dir);
}

/// A cell that is run leaves a clan of the pointer that ran it.
pub proof fn lemma_executed_ids(
    ip: IpState,
    w: WorldState,
    op: i128,
    now: Moment,
    dir: u8,
    depth: nat, bound: nat,
)
    requires
        ip.id < w.next_id,
    ensures
        breeds(executed(ip, w, op, now, dir, depth, bound), ip.id, w.next_id),
    decreases depth, bound, 3nat, 0nat,
{
    if !ip.string_mode && !ip.fingerprints.contains(op) && 0 <= op <= 255 && permits(
        w.rules.version,
        op as u8,
    ) {
        if op as u8 == 107 {
            lemma_iterated_ids(ip, w, now, dir, depth, bound);
        } else {
            lemma_plain_ids(ip, w, op as u8, now, dir);
        }
    }
}

/// `k` leaves a clan of the pointer that ran it.
pub proof fn lemma_iterated_ids(ip: IpState, w: WorldState, now: Moment, dir: u8, depth: nat, bound: nat)
    requires
        ip.id < w.next_id,
    ensures
        breeds(iterated(ip, w, now, dir, depth, bound), ip.id, w.next_id),
    decreases depth, bound, 1nat, 0nat,
{
    match to_isize(peek(ip.toss, 0)) {
        None => {},
        Some(n) => {
            let ip1 = IpState { toss: drop(ip.toss, 1), ..ip };
            match next_valid_of(ip1, w, false) {
                Err(_) => {},
                Ok(p) => {
                    if n > 0 && (ip.toss.len() < bound || depth > 0) {
                        lemma_rounds_ids(
                            seq![ip1],
                            w,
                            w.space[p],
                            n as nat,
                            true,
                            now,
                            dir,
                            if ip.toss.len() < bound {
                                depth
                            } else {
                                (depth - 1) as nat
                            },
                            ip.toss.len(),
                            ip.id,
                            w.next_id,
                        );
                    }
                },
            }
        },
    }
}

/// Rounds of an instruction leave a clan where they started with one.
pub proof fn lemma_rounds_ids(
    ips: Seq<IpState>,
    w: WorldState,
    op: i128,
    count: nat,
    skip: bool,
    now: Moment,
    dir: u8,
    depth: nat, bound: nat,
    a: usize,
    lo: usize,
)
    requires
        a < lo <= w.next_id,
        clan(ips, a, lo, w.next_id),
    ensures
        breeds(rounds(ips, w, op, count, skip, now, dir, depth, bound), a, lo),
    decreases depth, bound, 5nat, count,
{
    if count > 0 {
        assert(Seq::<IpState>::empty() + ips == ips);
        lemma_round_ids(ips, Seq::empty(), w, op, skip, now, dir, depth, bound, a, lo);
        match round(ips, Seq::empty(), w, op, skip, now, dir, depth, bound) {
            Outcome::Done { world, ips: next, skip: s } => {
                lemma_rounds_ids(next, world, op, (count - 1) as nat, s, now, dir, depth, bound, a, lo);
            },
            _ => {},
        }
    }
}

/// One round leaves a clan where the pointers that have run and those that
/// have yet to run are one.
pub proof fn lemma_round_ids(
    todo: Seq<IpState>,
    done: Seq<IpState>,
    w: WorldState,
    op: i128,
    skip: bool,
    now: Moment,
    dir: u8,
    depth: nat, bound: nat,
    a: usize,
    lo: usize,
)
    requires
        a < lo <= w.next_id,
        clan(done + todo, a, lo, w.next_id),
    ensures
        breeds(round(todo, done, w, op, skip, now, dir, depth, bound), a, lo),
    decreases depth, bound, 4nat, todo.len(),
{
    let all = done + todo;
    if todo.len() == 0 {
        assert(all == done);
    } else {
        let n = done.len() as int;
        assert(all[n] == todo[0]);
        lemma_executed_ids(todo[0], w, op, now, dir, depth, bound);
        match executed(todo[0], w, op, now, dir, depth, bound) {
            Outcome::Done { world, ips, skip: s } => {
                assert(ids_below(all, w.next_id));
                lemma_merge(done, todo, ips, w.next_id, world.next_id);
                let next = (done + ips) + todo.drop_first();
                let m = ips.len() as int;
                assert forall|k: int| 0 <= k < next.len() implies (#[trigger] next[k]).id == a || lo
                    <= next[k].id < world.next_id by {
                    if k < n {
                        assert(next[k] == all[k]);
                    } else if k < n + m {
                        assert(next[k] == ips[k - n]);
                    } else {
                        assert(next[k] == todo.drop_first()[k - n - m]);
                        assert(next[k] == all[k - m + 1]);
                    }
                }
                assert(next == (done + ips) + todo.drop_first());
                lemma_round_ids(
                    todo.drop_first(),
                    done + ips,
                    world,
                    op,
                    s,
                    now,
                    dir,
                    depth,
                    bound,
                    a,
                    lo,
                );
            },
            _ => {},
        }
    }
}

/// Moving the pointers on leaves each its id.
pub proof fn lemma_all_advanced_ids(ips: Seq<IpState>, w: WorldState, skip: bool, upto: nat)
    requires
        upto <= ips.len(),
    ensures
        all_advanced(ips, w, skip, upto) matches Ok(out) ==> out.len() == upto && forall|k: int|
            0 <= k < upto ==> (#[trigger] out[k]).id == ips[k].id,
    decreases upto,
{
    if upto > 0 {
        lemma_all_advanced_ids(ips, w, skip, (upto - 1) as nat);
    }
}

/// The step of a pointer leaves the pointer with its id, and with it only
/// pointers with ids that no pointer has had: each is the next id of its
/// time, and the next id is above them all.
pub proof fn lemma_stepped_ids(ip: IpState, w: WorldState, now: Moment, dir: u8)
    requires
        ip.id < w.next_id,
    ensures
        breeds(stepped(ip, w, now, dir), ip.id, w.next_id),
{
    lemma_executed_ids(ip, w, w.space[ip.position], now, dir, MAX_DEPTH as nat, first_bound(ip));
    match executed(ip, w, w.space[ip.position], now, dir, MAX_DEPTH as nat, first_bound(ip)) {
        Outcome::Done { world, ips, skip } => {
            lemma_all_advanced_ids(ips, world, skip, ips.len());
        },
        _ => {},
    }
}

} // verus!
