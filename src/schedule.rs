use vstd::prelude::*;

verus! {

pub const DAY_MS: u64 = 86_400_000;

/// How long to wait, from `now_ms` into the day, until the next time the
/// clock reads `at_ms` into a day: later today, or else tomorrow.
pub fn wait_until_next(now_ms: u64, at_ms: u64) -> (r: u64)
    requires
        now_ms < DAY_MS,
        at_ms < DAY_MS,
    ensures
        at_ms > now_ms ==> r == at_ms - now_ms,
        at_ms <= now_ms ==> r == DAY_MS - now_ms + at_ms,
{
    if at_ms > now_ms {
        at_ms - now_ms
    } else {
        DAY_MS - now_ms + at_ms
    }
}

} // verus!
