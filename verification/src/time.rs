//! Instants and durations.
//!
//! The machine reads no wall clock: every instant is handed in. Instants count
//! nanoseconds from an arbitrary origin, durations count nanoseconds.

use vstd::prelude::*;

verus! {

/// Nanoseconds since the origin.
pub type Instant = u64;

/// A length of time in nanoseconds.
pub type Duration = u64;

/// The instant from which the others are counted.
pub const ORIGIN: Instant = 0;

/// Nanoseconds in one millisecond.
pub const MILLISECOND: Duration = 1_000_000;

/// Nanoseconds in one second.
pub const SECOND: Duration = 1_000_000_000;

/// The instant `d` after `t`; the last instant of all stands for everything
/// beyond it.
pub open spec fn later(t: Instant, d: Duration) -> Instant {
    if t + d <= u64::MAX {
        (t + d) as u64
    } else {
        u64::MAX
    }
}

/// How long before `now` the instant `then` lies; nothing for one that is still
/// to come.
pub open spec fn since(now: Instant, then: Instant) -> Duration {
    if now >= then {
        (now - then) as u64
    } else {
        0
    }
}

/// The later of two instants.
pub open spec fn latest(a: Instant, b: Instant) -> Instant {
    if a >= b {
        a
    } else {
        b
    }
}

/// The earlier of two instants.
pub open spec fn earliest(a: Instant, b: Instant) -> Instant {
    if a <= b {
        a
    } else {
        b
    }
}

/// The earlier of two deadlines, either of which may not be armed.
pub open spec fn earliest_armed(a: Option<Instant>, b: Option<Instant>) -> Option<Instant> {
    match (a, b) {
        (Some(x), Some(y)) => Some(earliest(x, y)),
        (Some(x), None) => Some(x),
        (None, y) => y,
    }
}

/// Returns the instant `d` after `t`.
pub fn add_duration(t: Instant, d: Duration) -> (r: Instant)
    ensures
        r == later(t, d),
{
    t.saturating_add(d)
}

/// Returns the time from `then` to `now`.
pub fn duration_since(now: Instant, then: Instant) -> (r: Duration)
    ensures
        r == since(now, then),
{
    now.saturating_sub(then)
}

/// Returns the later of two instants.
pub fn max_instant(a: Instant, b: Instant) -> (r: Instant)
    ensures
        r == latest(a, b),
{
    if a >= b {
        a
    } else {
        b
    }
}

/// Returns the earlier of two deadlines.
pub fn min_deadline(a: Option<Instant>, b: Option<Instant>) -> (r: Option<Instant>)
    ensures
        r == earliest_armed(a, b),
{
    match (a, b) {
        (Some(x), Some(y)) => if x <= y {
            Some(x)
        } else {
            Some(y)
        },
        (Some(x), None) => Some(x),
        (None, y) => y,
    }
}

/// To add a duration and to take the time that has passed since undo each other, as far as
/// there are instants. An instant that is still to come lies no time back.
pub proof fn durations_add_up(t: Instant, d: Duration, now: Instant)
    ensures
        t + d <= u64::MAX ==> later(t, d) == t + d && since(later(t, d), t) == d,
        t + d > u64::MAX ==> later(t, d) == u64::MAX,
        t <= now ==> t + since(now, t) == now,
        now <= t ==> since(now, t) == 0,
{
}

/// The later of two instants, and the earlier of two deadlines, is one of the two and on
/// the right side of both. No deadline is armed only where neither is.
pub proof fn deadlines_are_picked(
    a: Instant,
    b: Instant,
    x: Option<Instant>,
    y: Option<Instant>,
)
    ensures
        latest(a, b) >= a && latest(a, b) >= b,
        latest(a, b) == a || latest(a, b) == b,
        earliest(a, b) <= a && earliest(a, b) <= b,
        earliest(a, b) == a || earliest(a, b) == b,
        earliest_armed(x, y) is None <==> x is None && y is None,
        earliest_armed(x, y) is Some ==> earliest_armed(x, y) == x || earliest_armed(x, y) == y,
        earliest_armed(x, y) matches Some(t) ==> (x matches Some(u) ==> t <= u) && (
        y matches Some(u) ==> t <= u),
{
}

} // verus!
