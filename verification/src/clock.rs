//! Readings of a clock and spans of time.

use vstd::prelude::*;

verus! {

/// A span of time.
#[derive(Clone, Copy, Debug, PartialEq, Eq, Structural)]
pub struct Duration {
    pub secs: u64,
    /// The part below one second, in nanoseconds.
    pub nanos: u32,
}

/// A reading of a clock that never runs backwards: nanoseconds since the start of the
/// process.
#[derive(Clone, Copy, Debug, PartialEq, Eq, Structural)]
pub struct Instant {
    pub nanos: u64,
}

/// Nanoseconds in a second.
pub const NANOS_PER_SEC: u64 = 1_000_000_000;

impl Duration {
    /// The span in nanoseconds.
    pub open spec fn total(self) -> int {
        self.secs * NANOS_PER_SEC + self.nanos
    }

    /// A span of whole seconds.
    pub fn from_secs(secs: u64) -> (r: Duration)
        ensures
            r == (Duration { secs, nanos: 0 }),
    {
        Duration { secs, nanos: 0 }
    }

    /// The whole seconds of the span.
    pub fn as_secs(&self) -> (r: u64)
        ensures
            r == self.secs,
    {
        self.secs
    }
}

/// The time from `start` to `now`, and none if the readings are the other way round.
pub open spec fn elapsed(start: Instant, now: Instant) -> Duration {
    let n = if now.nanos >= start.nanos {
        (now.nanos - start.nanos) as u64
    } else {
        0
    };
    Duration { secs: (n / NANOS_PER_SEC) as u64, nanos: (n % NANOS_PER_SEC) as u32 }
}

impl Instant {
    /// The time since this reading was taken.
    pub fn elapsed(&self, now: Instant) -> (r: Duration)
        ensures
            r == elapsed(*self, now),
    {
        let n: u64 = if now.nanos >= self.nanos {
            now.nanos - self.nanos
        } else {
            0
        };
        Duration { secs: n / NANOS_PER_SEC, nanos: (n % NANOS_PER_SEC) as u32 }
    }
}

/// Time that has passed reaches a number of whole seconds exactly when its own whole
/// seconds do.
pub proof fn law_whole_seconds_decide(start: Instant, now: Instant, secs: u64)
    ensures
        elapsed(start, now).total() >= (Duration { secs, nanos: 0 }).total() <==> elapsed(
            start,
            now,
        ).secs >= secs,
{
}

/// Time that has passed is the distance of the two readings, to the nanosecond, and less
/// than a second of it is left over besides the whole seconds. A clock that went backwards
/// has let no time pass.
pub proof fn law_elapsed_is_the_distance(start: Instant, now: Instant)
    ensures
        start.nanos <= now.nanos ==> elapsed(start, now).secs * 1_000_000_000 + elapsed(
            start,
            now,
        ).nanos == now.nanos - start.nanos,
        now.nanos <= start.nanos ==> elapsed(start, now).secs == 0 && elapsed(start, now).nanos
            == 0,
        elapsed(start, now).nanos < 1_000_000_000,
        elapsed(start, now).total() == elapsed(start, now).secs * 1_000_000_000 + elapsed(
            start,
            now,
        ).nanos,
{
}

/// Of two readings the later one never shows less time.
pub proof fn law_elapsed_never_runs_back(start: Instant, now: Instant, later: Instant)
    requires
        now.nanos <= later.nanos,
    ensures
        elapsed(start, now).secs <= elapsed(start, later).secs,
        elapsed(start, now).total() <= elapsed(start, later).total(),
{
    law_elapsed_is_the_distance(start, now);
    law_elapsed_is_the_distance(start, later);
}

} // verus!
