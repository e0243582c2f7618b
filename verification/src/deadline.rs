//! The watchdog of a bounded wait.

use vstd::prelude::*;

verus! {

/// How long a watchdog sleeps at most before it looks again whether its wait is
/// over, in nanoseconds.
pub const WATCHDOG_CANCEL_POLL_INTERVAL: u128 = 50_000_000;

/// What a watchdog does next.
#[derive(Clone, Copy, PartialEq, Eq, Structural, Debug)]
pub enum WatchdogStep {
    /// Nobody waits any more: end silently.
    Stop,
    /// The deadline passed: say so and end.
    Fire,
    /// Sleep for this long, in nanoseconds.
    Sleep(u128),
}

/// What a watchdog does next, given whether its wait is over and how long it has
/// run: a wait that is over ends it, a deadline that passed fires it, and
/// otherwise it sleeps in bounded slices that never pass the deadline.
pub open spec fn watching(closed: bool, elapsed: int, timeout: int) -> WatchdogStep {
    if closed {
        WatchdogStep::Stop
    } else if elapsed >= timeout {
        WatchdogStep::Fire
    } else if timeout - elapsed < WATCHDOG_CANCEL_POLL_INTERVAL {
        WatchdogStep::Sleep((timeout - elapsed) as u128)
    } else {
        WatchdogStep::Sleep(WATCHDOG_CANCEL_POLL_INTERVAL)
    }
}

/// What a watchdog does next, given whether its wait is over and how long it has
/// run.
pub fn watchdog(closed: bool, elapsed: u128, timeout: u128) -> (r: WatchdogStep)
    ensures
        r == watching(closed, elapsed as int, timeout as int),
{
    if closed {
        return WatchdogStep::Stop;
    }
    if elapsed >= timeout {
        return WatchdogStep::Fire;
    }
    let left: u128 = timeout - elapsed;
    if left < WATCHDOG_CANCEL_POLL_INTERVAL {
        WatchdogStep::Sleep(left)
    } else {
        WatchdogStep::Sleep(WATCHDOG_CANCEL_POLL_INTERVAL)
    }
}

/// A watchdog whose wait ended early is gone within one bounded slice, never
/// sleeping out its timeout, and one that sleeps never passes its deadline.
pub proof fn law_an_early_wait_releases_its_watchdog(closed: bool, elapsed: int, timeout: int)
    requires
        0 <= elapsed,
        timeout <= u128::MAX,
    ensures
        watching(true, elapsed, timeout) is Stop,
        watching(closed, elapsed, timeout) matches WatchdogStep::Sleep(slice) ==> 0 < slice
            <= WATCHDOG_CANCEL_POLL_INTERVAL && elapsed + slice <= timeout,
{
}

} // verus!
