//! The system information that `y` reveals.

use vstd::prelude::*;
use crate::cell::fits;
use crate::host::Moment;
use crate::ip::IpState;
use crate::rules::permits;
use crate::world::WorldState;

verus! {

/// The handprint of this implementation: the letters of its name as the
/// bytes of a number, the first the lowest.
pub const HANDPRINT: i128 = 0x79747375727077;

/// The version of this implementation.
pub const RELEASE: i128 = 10;

/// The flags of field 1: unbuffered input and output (16), and `t` (1),
/// `i` (2), `o` (4) and `=` (8) where the version in force has them.
pub open spec fn flags_of(w: WorldState) -> int {
    16 + (if permits(w.rules.version, 116) {
        1int
    } else {
        0
    }) + (if permits(w.rules.version, 105) {
        2int
    } else {
        0
    }) + (if permits(w.rules.version, 111) {
        4int
    } else {
        0
    }) + (if permits(w.rules.version, 61) {
        8int
    } else {
        0
    })
}

/// The characters of `words` as numbers, a zero after each word.
pub open spec fn terminated(words: Seq<Seq<char>>) -> Seq<int>
    decreases words.len(),
{
    if words.len() == 0 {
        Seq::empty()
    } else {
        terminated(words.drop_last()) + Seq::new(
            words.last().len(),
            |i: int| words.last()[i] as int,
        ) + seq![0int]
    }
}

/// Each variable as the word `KEY=VALUE`.
pub open spec fn assignments(vars: Seq<(Seq<char>, Seq<char>)>) -> Seq<Seq<char>> {
    Seq::new(vars.len(), |i: int| vars[i].0 + seq!['='] + vars[i].1)
}

/// The numbers of the 20 fields, each in the order in which it is pushed.
/// Field 19 holds the arguments, then the name of the program, a zero after
/// each, and two zeros more; field 20 holds the environment as `KEY=VALUE`,
/// a zero after each, and two zeros more. Both are pushed last cell first, so
/// that they are popped in reading order.
pub open spec fn field_numbers(ip: IpState, w: WorldState, now: Moment) -> Seq<Seq<int>> {
    seq![
        seq![flags_of(w)],
        seq![w.bits as int / 8],
        seq![HANDPRINT as int],
        seq![RELEASE as int],
        seq![1int],
        seq![w.separator as int],
        seq![2int],
        seq![ip.id as int],
        seq![0int],
        seq![ip.position.x as int, ip.position.y as int],
        seq![ip.delta.x as int, ip.delta.y as int],
        seq![ip.offset.x as int, ip.offset.y as int],
        seq![w.extent.left as int, w.extent.top as int],
        seq![w.extent.right - w.extent.left - 1, w.extent.bottom - w.extent.top - 1],
        seq![(now.year - 1900) * 65536 + now.month * 256 + now.day],
        seq![now.hour * 65536 + now.minute * 256 + now.second],
        seq![ip.lower.len() as int + 1],
        Seq::new(ip.lower.len(), |i: int| ip.lower[i].len() as int).push(ip.toss.len() as int),
        (terminated(w.args.push(w.program)) + seq![0int, 0int]).reverse(),
        (terminated(assignments(w.vars)) + seq![0int, 0int]).reverse(),
    ]
}

/// Whether every number of every field is a value of a cell of that width.
pub open spec fn fields_fit(numbers: Seq<Seq<int>>, bits: u32) -> bool {
    forall|i: int, j: int|
        0 <= i < numbers.len() && 0 <= j < numbers[i].len() ==> fits(#[trigger] numbers[i][j], bits)
}

/// The 20 fields as cells; `None` when a number is no value of a cell.
pub open spec fn system_fields(ip: IpState, w: WorldState, now: Moment) -> Option<Seq<Seq<i128>>> {
    let numbers = field_numbers(ip, w, now);
    if fields_fit(numbers, w.bits) {
        Some(Seq::new(20, |i: int| Seq::new(numbers[i].len(), |j: int| numbers[i][j] as i128)))
    } else {
        None
    }
}

} // verus!
