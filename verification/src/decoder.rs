//! The decoder: from a cell to what it does, the iteration of an
//! instruction, and one step of an instruction pointer.

use vstd::prelude::*;
use crate::error::FungeError;
use crate::host::Moment;
use crate::ip::{advanced, ip_views, lemma_seek_lands, IpState, IP};
use crate::ops::{cell_to_isize, done, done_moved, Exec};
use crate::semantics::{
    all_advanced, decoded, executed, is_stack_op, is_steer_op, iterated, plain, round, rounds,
    first_bound, stepped, Outcome, MAX_DEPTH,
};
use crate::space::SPACE;
use crate::world::{World, WorldState};

verus! {

/// The pointers in the opposite order.
pub fn flipped(v: Vec<IP>) -> (r: Vec<IP>)
    ensures
        ip_views(r@) == ip_views(v@).reverse(),
{
    let mut v = v;
    let mut r: Vec<IP> = Vec::new();
    let ghost all = ip_views(v@);
    while v.len() > 0
        invariant
            r@.len() + v@.len() == all.len(),
            forall|k: int| 0 <= k < v@.len() ==> (#[trigger] v@[k])@ == all[k],
            forall|k: int| 0 <= k < r@.len() ==> (#[trigger] r@[k])@ == all[all.len() - 1 - k],
        decreases v.len(),
    {
        let ip = v.pop().unwrap();
        r.push(ip);
    }
    assert(ip_views(r@) =~= all.reverse());
    r
}

/// A step that failed stays failed, however many pointers follow.
pub proof fn lemma_all_advanced_fails(
    ips: Seq<IpState>,
    w: WorldState,
    skip: bool,
    at: nat,
    upto: nat,
)
    requires
        at <= upto,
        all_advanced(ips, w, skip, at) is Err,
    ensures
        all_advanced(ips, w, skip, upto) == all_advanced(ips, w, skip, at),
    decreases upto - at,
{
    if at < upto {
        lemma_all_advanced_fails(ips, w, skip, at, (upto - 1) as nat);
    }
}

/// A pointer that is not in stringmode comes to rest inside the extent, on
/// a cell that holds neither a space nor a `;`.
pub proof fn lemma_advanced_inside(ip: IpState, w: WorldState, skip: bool)
    requires
        w.wf(),
    ensures
        advanced(ip, w, skip) matches Ok(next) ==> (next.string_mode == ip.string_mode && (
        !next.string_mode ==> w.extent.has(next.position) && w.space[next.position] != SPACE)),
{
    let fuel = crate::ip::patience(w.extent);
    if !ip.string_mode {
        match crate::ip::next_pos_of(ip.position, ip.delta, w.extent) {
            Some(q) => {
                lemma_seek_lands(w.space, w.extent, q, ip.delta, false, fuel);
            },
            None => {},
        }
        lemma_seek_lands(w.space, w.extent, ip.position, ip.delta, false, fuel);
    }
}

/// One round of an iterated instruction: every pointer of `todo` runs `op`
/// once, in order.
pub fn run_round(
    todo: Vec<IP>,
    world: &mut World,
    op: i128,
    skip: bool,
    now: Moment,
    dir: u8,
    depth: u32, bound: usize,
) -> (r: Exec)
    requires
        old(world).wf(),
    ensures
        r.outcome(final(world)@) == round(
            ip_views(todo@),
            Seq::empty(),
            old(world)@,
            op,
            skip,
            now,
            dir,
            depth as nat,
            bound as nat,
        ),
        r is Done ==> final(world).wf(),
        final(world)@.comes_of(old(world)@),
    decreases depth, bound, 4nat,
{
    let ghost goal = round(
        ip_views(todo@),
        Seq::empty(),
        old(world)@,
        op,
        skip,
        now,
        dir,
        depth as nat,
        bound as nat,
    );
    let mut rev = flipped(todo);
    let mut out: Vec<IP> = Vec::new();
    let ghost start_skip = skip;
    let mut skip = skip;
    assert(ip_views(rev@).reverse() =~= ip_views(todo@));
    assert(ip_views(out@) =~= Seq::<IpState>::empty());
    while rev.len() > 0
        invariant
            world.wf(),
            world@.comes_of(old(world)@),
            goal == round(
                ip_views(todo@),
                Seq::empty(),
                old(world)@,
                op,
                start_skip,
                now,
                dir,
                depth as nat,
                bound as nat,
            ),
            goal == round(
                ip_views(rev@).reverse(),
                ip_views(out@),
                world@,
                op,
                skip,
                now,
                dir,
                depth as nat,
                bound as nat,
            ),
        decreases rev.len(),
    {
        let ghost before = ip_views(rev@).reverse();
        let ghost had = ip_views(out@);
        let ghost w = world@;
        let ghost was = skip;
        let ip = rev.pop().unwrap();
        assert(before[0] == ip@);
        assert(before.drop_first() =~= ip_views(rev@).reverse());
        assert(goal == round(before, had, w, op, was, now, dir, depth as nat, bound as nat));
        assert(before.len() > 0);
        assert(round(before, had, w, op, was, now, dir, depth as nat, bound as nat) == (match executed(
            before[0],
            w,
            op,
            now,
            dir,
            depth as nat,
            bound as nat,
        ) {
            Outcome::Done { world, ips, skip: s } => round(
                before.drop_first(),
                had + ips,
                world,
                op,
                s,
                now,
                dir,
                depth as nat,
                bound as nat,
            ),
            other => other,
        }));
        match ip.exe(world, op, now, dir, depth, bound) {
            Exec::Done(mut ips, s) => {
                let ghost more = ip_views(ips@);
                out.append(&mut ips);
                assert(ip_views(out@) =~= had + more);
                skip = s;
            },
            Exec::Blocked(request) => {
                assert(goal == Outcome::Blocked(request@));
                return Exec::Blocked(request);
            },
            Exec::Failed(e) => {
                assert(goal == Outcome::Failed(e));
                return Exec::Failed(e);
            },
        }
    }
    assert(ip_views(rev@).reverse() =~= Seq::<IpState>::empty());
    Exec::Done(out, skip)
}

impl IP {
    /// Whether a fingerprint binds `op`.
    pub fn knows(&self, op: i128) -> (b: bool)
        ensures
            b == self@.fingerprints.contains(op),
    {
        let mut i: usize = 0;
        while i < self.fingerprint_ops.len()
            invariant
                i <= self.fingerprint_ops.len(),
                forall|k: int| 0 <= k < i ==> self.fingerprint_ops@[k] != op,
            decreases self.fingerprint_ops.len() - i,
        {
            if self.fingerprint_ops[i] == op {
                return true;
            }
            i = i + 1;
        }
        false
    }

    /// `k`
    pub fn op_iterate(self, world: &mut World, now: Moment, dir: u8, depth: u32, bound: usize) -> (r: Exec)
        requires
            old(world).wf(),
        ensures
            r.outcome(final(world)@) == iterated(self@, old(world)@, now, dir, depth as nat, bound as nat),
            r is Done ==> final(world).wf(),
            final(world)@.comes_of(old(world)@),
        decreases depth, bound, 1nat,
    {
        let height = self.stack.top.len();
        let mut ip = self;
        let n = match cell_to_isize(ip.pop1()) {
            Some(n) => n,
            None => {
                return Exec::Failed(FungeError::Casting);
            },
        };
        let p = match ip.next_valid_pos(world, false) {
            Ok(p) => p,
            Err(e) => {
                return Exec::Failed(e);
            },
        };
        if n == 0 {
            ip.position = p;
            return done_moved(ip);
        }
        if n < 0 {
            return done_moved(ip);
        }
        let fuel = if height < bound {
            depth
        } else if depth > 0 {
            depth - 1
        } else {
            return Exec::Failed(FungeError::Nesting);
        };
        let op = world.code.read(p);
        let ghost goal = iterated(self@, old(world)@, now, dir, depth as nat, bound as nat);
        let mut ips: Vec<IP> = Vec::new();
        ips.push(ip);
        assert(ip_views(ips@) =~= seq![ip@]);
        let mut skip = true;
        let mut i: isize = 0;
        while i < n
            invariant
                0 <= i <= n,
                height == self@.toss.len(),
                fuel == depth && height < bound || depth > 0 && fuel == depth - 1,
                world.wf(),
                world@.comes_of(old(world)@),
                goal == iterated(self@, old(world)@, now, dir, depth as nat, bound as nat),
                goal == rounds(
                    ip_views(ips@),
                    world@,
                    op,
                    (n - i) as nat,
                    skip,
                    now,
                    dir,
                    fuel as nat,
                    height as nat,
                ),
            decreases n - i,
        {
            let ghost before = ip_views(ips@);
            let ghost w = world@;
            let ghost was = skip;
            assert(goal == rounds(
                before,
                w,
                op,
                (n - i) as nat,
                was,
                now,
                dir,
                fuel as nat,
                height as nat,
            ));
            match run_round(ips, world, op, skip, now, dir, fuel, height) {
                Exec::Done(next, s) => {
                    ips = next;
                    skip = s;
                },
                Exec::Blocked(request) => {
                    assert(goal == Outcome::Blocked(request@));
                    return Exec::Blocked(request);
                },
                Exec::Failed(e) => {
                    assert(goal == Outcome::Failed(e));
                    return Exec::Failed(e);
                },
            }
            i = i + 1;
        }
        Exec::Done(ips, skip)
    }

    /// What the instruction `op` does to a pointer that is not in
    /// stringmode.
    pub fn decode(self, world: &mut World, op: u8, now: Moment, dir: u8, depth: u32, bound: usize) -> (r: Exec)
        requires
            old(world).wf(),
        ensures
            r.outcome(final(world)@) == decoded(self@, old(world)@, op, now, dir, depth as nat, bound as nat),
            r is Done ==> final(world).wf(),
            final(world)@.comes_of(old(world)@),
        decreases depth, bound, 2nat,
    {
        if op == 107 {
            self.op_iterate(world, now, dir, depth, bound)
        } else {
            self.decode_plain(world, op, now, dir)
        }
    }

    /// What an instruction other than `k` does to a pointer that is not in
    /// stringmode.
    pub fn decode_plain(self, world: &mut World, op: u8, now: Moment, dir: u8) -> (r: Exec)
        requires
            old(world).wf(),
        ensures
            r.outcome(final(world)@) == plain(self@, old(world)@, op, now, dir),
            r is Done ==> final(world).wf(),
            final(world)@.comes_of(old(world)@),
    {
        reveal(plain);
        if stack_kind(op) {
            let mut ip = self;
            ip.stack_op(op, world.bits);
            done(ip)
        } else if steer_kind(op) {
            let mut ip = self;
            ip.steer(op, dir);
            done(ip)
        } else if op == 46 {
            self.op_put_number(world)
        } else if op == 44 {
            self.op_put_char(world)
        } else if op == 35 {
            self.op_trampoline(world)
        } else if op == 112 {
            self.op_put(world)
        } else if op == 103 {
            self.op_get(world)
        } else if op == 38 {
            self.op_read_number(world)
        } else if op == 126 {
            self.op_read_char(world)
        } else if op == 64 {
            let ips: Vec<IP> = Vec::new();
            assert(ip_views(ips@) =~= Seq::<IpState>::empty());
            Exec::Done(ips, false)
        } else if op == 39 {
            self.op_fetch(world)
        } else if op == 123 {
            self.op_begin_block(world)
        } else if op == 125 {
            self.op_end_block(world)
        } else if op == 61 {
            self.op_execute(world)
        } else if op == 40 || op == 41 {
            self.op_fingerprint(world)
        } else if op == 105 {
            self.op_read_file(world)
        } else if op == 106 {
            self.op_jump(world)
        } else if op == 111 {
            self.op_write_file(world)
        } else if op == 113 {
            self.op_quit()
        } else if op == 115 {
            self.op_store(world)
        } else if op == 116 {
            self.op_fork(world)
        } else if op == 117 {
            self.op_transfer(world)
        } else if op == 120 {
            self.op_set_delta(world)
        } else if op == 121 {
            self.op_system_info(world, now)
        } else {
            self.not_implemented(world)
        }
    }

    /// Runs the cell `op` on the pointer.
    pub fn exe(self, world: &mut World, op: i128, now: Moment, dir: u8, depth: u32, bound: usize) -> (r: Exec)
        requires
            old(world).wf(),
        ensures
            r.outcome(final(world)@) == executed(self@, old(world)@, op, now, dir, depth as nat, bound as nat),
            r is Done ==> final(world).wf(),
            final(world)@.comes_of(old(world)@),
        decreases depth, bound, 3nat,
    {
        if self.string {
            let mut ip = self;
            ip.string_op(op);
            done(ip)
        } else if self.knows(op) {
            done(self)
        } else if 0 <= op && op <= 255 && world.rules.allows(op as u8) {
            self.decode(world, op as u8, now, dir, depth, bound)
        } else {
            self.not_implemented(world)
        }
    }

    /// One step of the pointer: the cell it is at is run, and the pointers
    /// that go on move to their next instruction. Each of them that is not
    /// in stringmode then lies inside the extent.
    pub fn step(self, world: &mut World, now: Moment, dir: u8) -> (r: Exec)
        requires
            old(world).wf(),
        ensures
            r.outcome(final(world)@) == stepped(self@, old(world)@, now, dir),
            r is Done ==> final(world).wf(),
            final(world)@.comes_of(old(world)@),
            r matches Exec::Done(ips, _) ==> forall|i: int|
                0 <= i < ips@.len() && !(#[trigger] ips@[i]).string ==> final(world).extent.has(
                    ips@[i].position,
                ),
    {
        let op = self.op(world);
        let height = self.stack.top.len();
        let bound = if height < usize::MAX {
            height + 1
        } else {
            usize::MAX
        };
        match self.exe(world, op, now, dir, MAX_DEPTH, bound) {
            Exec::Done(ips, skip) => {
                let ghost all = ip_views(ips@);
                let ghost w1 = world@;
                let mut rev = flipped(ips);
                let mut next: Vec<IP> = Vec::new();
                assert(ip_views(next@) =~= Seq::<IpState>::empty());
                assert(ip_views(rev@) =~= all.reverse().take(rev@.len() as int));
                while rev.len() > 0
                    invariant
                        world.wf(),
                        world@ == w1,
                        w1.comes_of(old(world)@),
                        executed(
                            self@,
                            old(world)@,
                            old(world)@.space[self@.position],
                            now,
                            dir,
                            MAX_DEPTH as nat,
                            first_bound(self@),
                        ) == (Outcome::Done { world: w1, ips: all, skip }),
                        rev@.len() <= all.len(),
                        ip_views(rev@) == all.reverse().take(rev@.len() as int),
                        all_advanced(all, world@, skip, (all.len() - rev@.len()) as nat) == Ok::<
                            Seq<IpState>,
                            FungeError,
                        >(ip_views(next@)),
                        forall|i: int|
                            0 <= i < next@.len() && !(#[trigger] next@[i]).string
                                ==> world.extent.has(next@[i].position),
                    decreases rev.len(),
                {
                    let ghost at = (all.len() - rev@.len()) as nat;
                    let ghost had = ip_views(next@);
                    let ghost old_next = next@;
                    let ghost old_rev = ip_views(rev@);
                    let ip = rev.pop().unwrap();
                    assert(ip@ == old_rev[old_rev.len() - 1]);
                    assert(ip@ == all[at as int]);
                    assert(ip_views(rev@) =~= all.reverse().take(rev@.len() as int));
                    proof {
                        lemma_advanced_inside(ip@, world@, skip);
                    }
                    match ip.advance(world, skip) {
                        Ok(moved) => {
                            next.push(moved);
                            assert(ip_views(next@) =~= had.push(moved@));
                            assert forall|i: int|
                                0 <= i < next@.len() && !(#[trigger] next@[i]).string
                                    implies world.extent.has(next@[i].position) by {
                                if i < old_next.len() {
                                    assert(next@[i] == old_next[i]);
                                }
                            }
                        },
                        Err(e) => {
                            proof {
                                assert(all_advanced(all, world@, skip, at + 1) is Err);
                                lemma_all_advanced_fails(all, world@, skip, at + 1, all.len());
                            }
                            return Exec::Failed(e);
                        },
                    }
                }
                Exec::Done(next, skip)
            },
            Exec::Blocked(request) => Exec::Blocked(request),
            Exec::Failed(e) => Exec::Failed(e),
        }
    }
}

fn stack_kind(op: u8) -> (b: bool)
    ensures
        b == is_stack_op(op),
{
    op == 43 || op == 45 || op == 42 || op == 47 || op == 37 || op == 33 || op == 96 || op == 58
        || op == 92 || op == 36 || op == 110 || op == 122 || (48 <= op && op <= 57) || (97 <= op
        && op <= 102)
}

fn steer_kind(op: u8) -> (b: bool)
    ensures
        b == is_steer_op(op),
{
    op == 62 || op == 60 || op == 94 || op == 118 || op == 63 || op == 95 || op == 124 || op == 91
        || op == 93 || op == 114 || op == 119 || op == 34
}

} // verus!
