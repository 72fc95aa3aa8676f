//! The instruction that reveals system information.

use vstd::prelude::*;
use crate::error::FungeError;
use crate::host::Moment;
use crate::ip::{IpState, IP};
use crate::ops::{cell_to_isize, done, Exec};
use crate::semantics::{all_fields, system_info};
use crate::space::fits_cell;
use crate::stack::drop;
use crate::sysinfo::{
    assignments, field_numbers, fields_fit, system_fields, terminated, HANDPRINT, RELEASE,
};
use crate::text::{append_chars, code_point, copy_chars, rows};
use crate::world::{var_views, World};

verus! {

/// The cells as numbers.
pub open spec fn ints(cells: Seq<i128>) -> Seq<int> {
    Seq::new(cells.len(), |i: int| cells[i] as int)
}

/// Appends the characters of `word` as numbers, and a zero.
fn push_word(out: &mut Vec<i128>, word: &Vec<char>)
    ensures
        ints(final(out)@) == ints(old(out)@) + Seq::new(word@.len(), |i: int| word@[i] as int)
            + seq![0int],
{
    let mut j: usize = 0;
    while j < word.len()
        invariant
            j <= word.len(),
            ints(out@) == ints(old(out)@) + Seq::new(j as nat, |i: int| word@[i] as int),
        decreases word.len() - j,
    {
        let ghost before = ints(out@);
        let v = code_point(word[j]) as i128;
        out.push(v);
        assert(ints(out@) =~= before.push(v as int));
        assert(before.push(v as int) =~= ints(old(out)@) + Seq::new(
            (j + 1) as nat,
            |i: int| word@[i] as int,
        ));
        j = j + 1;
    }
    let ghost before = ints(out@);
    out.push(0);
    assert(ints(out@) =~= before + seq![0int]);
}

/// The cells in the opposite order.
fn reversed(v: &Vec<i128>) -> (r: Vec<i128>)
    ensures
        ints(r@) == ints(v@).reverse(),
{
    let mut r: Vec<i128> = Vec::new();
    let mut i: usize = v.len();
    while i > 0
        invariant
            i <= v.len(),
            r@.len() == v.len() - i,
            forall|k: int| 0 <= k < r@.len() ==> #[trigger] r@[k] == v@[v.len() - 1 - k],
        decreases i,
    {
        i = i - 1;
        r.push(v[i]);
    }
    assert(ints(r@) =~= ints(v@).reverse());
    r
}

fn single(v: i128) -> (r: Vec<i128>)
    ensures
        ints(r@) == seq![v as int],
{
    let mut r: Vec<i128> = Vec::new();
    r.push(v);
    assert(ints(r@) =~= seq![v as int]);
    r
}

fn pair(a: i128, b: i128) -> (r: Vec<i128>)
    ensures
        ints(r@) == seq![a as int, b as int],
{
    let mut r: Vec<i128> = Vec::new();
    r.push(a);
    r.push(b);
    assert(ints(r@) =~= seq![a as int, b as int]);
    r
}

/// The words as numbers, a zero after each, then two zeros more, all in
/// the opposite order.
fn list_field(words: &Vec<Vec<char>>) -> (r: Vec<i128>)
    ensures
        ints(r@) == (terminated(rows(words@)) + seq![0int, 0int]).reverse(),
{
    let mut forward: Vec<i128> = Vec::new();
    let mut i: usize = 0;
    assert(ints(forward@) =~= terminated(rows(words@).take(0)));
    while i < words.len()
        invariant
            i <= words.len(),
            ints(forward@) == terminated(rows(words@).take(i as int)),
        decreases words.len() - i,
    {
        assert(rows(words@).take(i + 1).drop_last() == rows(words@).take(i as int));
        assert(rows(words@).take(i + 1).last() == words@[i as int]@);
        push_word(&mut forward, &words[i]);
        i = i + 1;
    }
    assert(rows(words@).take(words.len() as int) == rows(words@));
    let ghost before = ints(forward@);
    forward.push(0);
    forward.push(0);
    assert(ints(forward@) =~= before + seq![0int, 0int]);
    reversed(&forward)
}

impl IP {
    /// The 20 fields of the system information, each in the order in which
    /// it is pushed.
    pub fn get_info(&self, world: &World, now: Moment) -> (r: Vec<Vec<i128>>)
        ensures
            r@.len() == 20,
            forall|i: int|
                0 <= i < 20 ==> ints(#[trigger] r@[i]@) == field_numbers(self@, world@, now)[i],
    {
        let ghost spec = field_numbers(self@, world@, now);
        let mut flags: i128 = 16;
        if world.rules.allows(116) {
            flags = flags + 1;
        }
        if world.rules.allows(105) {
            flags = flags + 2;
        }
        if world.rules.allows(111) {
            flags = flags + 4;
        }
        if world.rules.allows(61) {
            flags = flags + 8;
        }
        let mut sizes: Vec<i128> = Vec::new();
        let mut i: usize = 0;
        while i < self.stack.lower.len()
            invariant
                i <= self.stack.lower.len(),
                sizes@.len() == i,
                forall|k: int| 0 <= k < i ==> #[trigger] sizes@[k] == self@.lower[k].len(),
            decreases self.stack.lower.len() - i,
        {
            sizes.push(self.stack.lower[i].len() as i128);
            i = i + 1;
        }
        sizes.push(self.stack.top.len() as i128);
        assert(ints(sizes@) =~= spec[17]);
        let mut names: Vec<Vec<char>> = Vec::new();
        let mut i: usize = 0;
        while i < world.args.len()
            invariant
                i <= world.args.len(),
                names@.len() == i,
                forall|k: int| 0 <= k < i ==> (#[trigger] names@[k])@ == world.args@[k]@,
            decreases world.args.len() - i,
        {
            names.push(copy_chars(&world.args[i]));
            i = i + 1;
        }
        names.push(copy_chars(&world.program));
        assert(rows(names@) =~= world@.args.push(world@.program));
        let mut pairs: Vec<Vec<char>> = Vec::new();
        let mut i: usize = 0;
        while i < world.vars.len()
            invariant
                i <= world.vars.len(),
                pairs@.len() == i,
                forall|k: int|
                    0 <= k < i ==> (#[trigger] pairs@[k])@ == world.vars@[k].key@ + seq!['=']
                        + world.vars@[k].value@,
            decreases world.vars.len() - i,
        {
            let mut word = copy_chars(&world.vars[i].key);
            word.push('=');
            append_chars(&mut word, &world.vars[i].value);
            assert(word@ =~= world.vars@[i as int].key@ + seq!['='] + world.vars@[i as int].value@);
            pairs.push(word);
            i = i + 1;
        }
        assert(rows(pairs@) =~= assignments(var_views(world.vars@)));
        let mut r: Vec<Vec<i128>> = Vec::new();
        r.push(single(flags));
        r.push(single((world.bits / 8) as i128));
        r.push(single(HANDPRINT));
        r.push(single(RELEASE));
        r.push(single(1));
        r.push(single(code_point(world.separator) as i128));
        r.push(single(2));
        r.push(single(self.id as i128));
        r.push(single(0));
        r.push(pair(self.position.x as i128, self.position.y as i128));
        r.push(pair(self.delta.x as i128, self.delta.y as i128));
        r.push(pair(self.offset.x as i128, self.offset.y as i128));
        r.push(pair(world.extent.left as i128, world.extent.top as i128));
        r.push(
            pair(
                world.extent.right as i128 - world.extent.left as i128 - 1,
                world.extent.bottom as i128 - world.extent.top as i128 - 1,
            ),
        );
        r.push(
            single((now.year as i128 - 1900) * 65536 + (now.month as i128) * 256 + now.day as i128),
        );
        r.push(
            single((now.hour as i128) * 65536 + (now.minute as i128) * 256 + now.second as i128),
        );
        r.push(single(self.stack.lower.len() as i128 + 1));
        r.push(sizes);
        r.push(list_field(&names));
        r.push(list_field(&pairs));
        r
    }

    /// The 20 fields as cells; `None` when a number is no value of a cell.
    pub fn system_cells(&self, world: &World, now: Moment) -> (r: Option<Vec<Vec<i128>>>)
        requires
            world.wf(),
        ensures
            match system_fields(self@, world@, now) {
                Some(fields) => r is Some && r->0@.len() == 20 && (forall|i: int|
                    0 <= i < 20 ==> (#[trigger] r->0@[i])@ == fields[i]),
                None => r is None,
            },
    {
        let fields = self.get_info(world, now);
        let ghost numbers = field_numbers(self@, world@, now);
        let mut i: usize = 0;
        while i < 20
            invariant
                i <= 20,
                world.wf(),
                fields@.len() == 20,
                numbers == field_numbers(self@, world@, now),
                forall|k: int| 0 <= k < 20 ==> ints(#[trigger] fields@[k]@) == numbers[k],
                forall|a: int, b: int|
                    0 <= a < i && 0 <= b < numbers[a].len() ==> crate::cell::fits(
                        #[trigger] numbers[a][b],
                        world.bits,
                    ),
            decreases 20 - i,
        {
            let field = &fields[i];
            assert(ints(field@) == numbers[i as int]);
            let mut j: usize = 0;
            while j < field.len()
                invariant
                    j <= field.len(),
                    world.wf(),
                    i < 20,
                    numbers == field_numbers(self@, world@, now),
                    numbers.len() == 20,
                    ints(field@) == numbers[i as int],
                    forall|b: int|
                        0 <= b < j ==> crate::cell::fits(#[trigger] numbers[i as int][b], world.bits),
                decreases field.len() - j,
            {
                if !fits_cell(field[j], world.bits) {
                    assert(ints(field@)[j as int] == field@[j as int]);
                    assert(!crate::cell::fits(numbers[i as int][j as int], world.bits));
                    return None;
                }
                assert(ints(field@)[j as int] == field@[j as int]);
                j = j + 1;
            }
            assert(ints(field@).len() == field@.len());
            i = i + 1;
        }
        assert(fields_fit(numbers, world.bits));
        proof {
            let cells = system_fields(self@, world@, now)->0;
            assert forall|k: int| 0 <= k < 20 implies (#[trigger] fields@[k])@ == cells[k] by {
                assert(ints(fields@[k]@) == numbers[k]);
                assert forall|b: int| 0 <= b < fields@[k]@.len() implies fields@[k]@[b]
                    == cells[k][b] by {
                    assert(ints(fields@[k]@)[b] == fields@[k]@[b]);
                }
                assert(fields@[k]@ =~= cells[k]);
            }
        }
        Some(fields)
    }

    /// `y`
    pub fn op_system_info(self, world: &mut World, now: Moment) -> (r: Exec)
        requires
            old(world).wf(),
        ensures
            r.outcome(final(world)@) == system_info(self@, old(world)@, now),
            r is Done ==> final(world).wf(),
            final(world)@.comes_of(old(world)@),
    {
        let mut ip = self;
        let n = match cell_to_isize(ip.pop1()) {
            Some(n) => n,
            None => {
                return Exec::Failed(FungeError::Casting);
            },
        };
        world.shrink_extent();
        let fields = match ip.system_cells(world, now) {
            Some(fields) => fields,
            None => {
                return Exec::Failed(FungeError::Casting);
            },
        };
        let ghost cells = system_fields(ip@, world@, now)->0;
        let ghost base = ip@.toss;
        if n <= 0 {
            let mut k: usize = 20;
            assert(base + all_fields(cells, 0) =~= base);
            while k > 0
                invariant
                    k <= 20,
                    fields@.len() == 20,
                    forall|i: int| 0 <= i < 20 ==> (#[trigger] fields@[i])@ == cells[i],
                    ip@ == (IpState { toss: ip@.toss, ..self@ }),
                    base == drop(self@.toss, 1),
                    ip@.toss + all_fields(cells, k as nat) == base + all_fields(cells, 20),
                decreases k,
            {
                let ghost before = ip@.toss;
                ip.stack.extend(&fields[k - 1]);
                assert(before + (cells[k - 1] + all_fields(cells, (k - 1) as nat)) == (before
                    + cells[k - 1]) + all_fields(cells, (k - 1) as nat));
                k = k - 1;
            }
            assert(ip@.toss + all_fields(cells, 0) =~= ip@.toss);
        } else if n <= 20 {
            ip.stack.extend(&fields[(n - 1) as usize]);
        } else {
            let v = ip.stack.top.peek_at((n - 21) as usize);
            ip.push1(v);
        }
        done(ip)
    }
}

} // verus!
