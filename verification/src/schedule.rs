//! Cadence of the poll cycle.

use vstd::prelude::*;

verus! {

/// Nominal length of one cycle, in milliseconds.
pub const TICK_MILLIS: u64 = 1000;

/// How long to wait before the next cycle may start: what is left of the tick
/// once `elapsed` has gone by, zero when the cycle has overrun.
pub open spec fn pause_spec(tick: int, elapsed: int) -> int {
    if elapsed < tick {
        tick - elapsed
    } else {
        0
    }
}

/// Milliseconds to sleep after a cycle that took `elapsed_millis`, so that
/// cycles start no closer together than `tick_millis`. `None` means that the
/// next cycle starts at once.
pub fn pause_before_next(tick_millis: u64, elapsed_millis: u64) -> (pause: Option<u64>)
    ensures
        pause == if elapsed_millis < tick_millis {
            Some((tick_millis - elapsed_millis) as u64)
        } else {
            None::<u64>
        },
        pause matches Some(p) ==> p == pause_spec(tick_millis as int, elapsed_millis as int) && p > 0,
        pause is None ==> pause_spec(tick_millis as int, elapsed_millis as int) == 0,
{
    if elapsed_millis < tick_millis {
        Some(tick_millis - elapsed_millis)
    } else {
        None
    }
}

} // verus!
