//! What the engine takes from the machine it runs on: random turns and the
//! time of day.

use vstd::prelude::*;
use chrono::{Datelike, Timelike};
use rand::Rng;
use crate::host::Moment;

verus! {

/// Whether the fields of a moment are those of a date and a time of day.
pub open spec fn moment_ok(m: Moment) -> bool {
    &&& 1 <= m.month <= 12
    &&& 1 <= m.day <= 31
    &&& m.hour <= 23
    &&& m.minute <= 59
    &&& m.second <= 59
}

/// Whether each turn is a number from 0 to 3.
pub open spec fn turns_ok(dirs: Seq<u8>) -> bool {
    forall|i: int| 0 <= i < dirs.len() ==> #[trigger] dirs[i] < 4
}

/// `rand::Rng::gen_range` with the range `0..4`, on the generator that
/// `rand::thread_rng` gives: a number of the range, which is not empty. It
/// needs the system's source of randomness to seed the generator.
#[verifier::external_body]
pub(crate) fn random_direction() -> (d: u8)
    ensures
        d < 4,
{
    rand::thread_rng().gen_range(0..4)
}

/// `chrono::Local::now` and the fields of what it returns, as `Datelike` and
/// `Timelike` give them: the month from 1 to 12, the day from 1 to 31, the
/// hour from 0 to 23, the minute and the second from 0 to 59. It needs a clock
/// that is not set before 1970.
#[verifier::external_body]
pub(crate) fn local_now() -> (m: Moment)
    ensures
        moment_ok(m),
{
    let t = chrono::Local::now();
    Moment {
        year: t.year(),
        month: t.month(),
        day: t.day(),
        hour: t.hour(),
        minute: t.minute(),
        second: t.second(),
    }
}

} // verus!
