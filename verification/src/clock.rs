//! Lamport clocks.
//!
//! A clock is a plain `u64`. Times at or above [`LTIME_MAX`] are out of range:
//! they are refused wherever they arrive, so that no peer can drive a clock to
//! the end of the integer range.

use vstd::prelude::*;

verus! {

/// The first Lamport time that is out of range.
pub const LTIME_MAX: u64 = 0x8000_0000_0000_0000;

/// A Lamport time, as messages carry it.
#[derive(Debug, Clone, Copy, PartialEq, Eq, Structural, Hash)]
pub struct LamportTime(pub u64);

impl LamportTime {
    /// The time with the given number.
    pub fn new(t: u64) -> (r: Self)
        ensures
            r == LamportTime(t),
    {
        LamportTime(t)
    }
}

/// Whether `t` is in range.
pub open spec fn acceptable(t: u64) -> bool {
    t < LTIME_MAX
}

/// What a clock reads after it has seen the time `t`: one past `t` where `t` is
/// in range and not behind the clock, and what it read before otherwise.
pub open spec fn witnessed(clock: u64, t: u64) -> u64 {
    if acceptable(t) && t >= clock {
        (t + 1) as u64
    } else {
        clock
    }
}

/// What a clock reads after one tick; the last value of all stays.
pub open spec fn ticked(clock: u64) -> u64 {
    if clock < u64::MAX {
        (clock + 1) as u64
    } else {
        clock
    }
}

/// Returns `true` if `t` is a Lamport time that may be witnessed.
pub fn ltime_is_acceptable(t: u64) -> (r: bool)
    ensures
        r == acceptable(t),
{
    t < LTIME_MAX
}

/// Advances `clock` past the observed time `t`.
///
/// An older observation changes nothing, and neither does one out of range.
pub fn witness(clock: &mut u64, t: u64)
    ensures
        *final(clock) == witnessed(*old(clock), t),
{
    if !ltime_is_acceptable(t) {
        return;
    }
    if t >= *clock {
        *clock = t.saturating_add(1);
    }
}

/// Stamps the time that `clock` reads, and advances the clock by one.
pub fn next_ltime(clock: &mut u64) -> (stamped: u64)
    ensures
        stamped == *old(clock),
        *final(clock) == ticked(*old(clock)),
{
    let stamped: u64 = *clock;
    *clock = stamped.saturating_add(1);
    stamped
}

/// A clock never runs backwards, whatever it witnesses.
pub proof fn witness_never_regresses(clock: u64, t: u64)
    ensures
        witnessed(clock, t) >= clock,
{
}

/// After a witness the next stamp is later than every time in range that was
/// seen.
pub proof fn witness_passes_what_it_saw(clock: u64, t: u64)
    requires
        acceptable(t),
    ensures
        witnessed(clock, t) > t,
{
}

/// A witness carries no clock past [`LTIME_MAX`] that was not past it before, so
/// none wraps to zero or reaches the last value.
pub proof fn witness_keeps_the_integrity_floor(clock: u64, t: u64)
    ensures
        clock <= LTIME_MAX ==> witnessed(clock, t) <= LTIME_MAX,
        witnessed(clock, t) == 0 ==> clock == 0,
        witnessed(clock, t) == u64::MAX ==> clock == u64::MAX,
{
}

/// To witness the same time twice is to witness it once.
pub proof fn witness_is_idempotent(clock: u64, t: u64)
    ensures
        witnessed(witnessed(clock, t), t) == witnessed(clock, t),
{
}

/// The order in which two times are witnessed makes no difference.
pub proof fn witness_commutes(clock: u64, t: u64, u: u64)
    ensures
        witnessed(witnessed(clock, t), u) == witnessed(witnessed(clock, u), t),
{
}

/// A tick never wraps: the clock grows by one, or stands at the last value.
pub proof fn tick_never_wraps(clock: u64)
    ensures
        clock < u64::MAX ==> ticked(clock) == clock + 1,
        ticked(clock) >= clock,
        ticked(clock) != 0,
{
}

/// A clock that has seen a time in range stands one past it, or where it stood if that is
/// later: it goes no further than it must. One out of range leaves it alone. The times in
/// range are the lower half of the integers.
pub proof fn witness_goes_no_further(clock: u64, t: u64)
    ensures
        t < 0x8000_0000_0000_0000 && t >= clock ==> witnessed(clock, t) == t + 1,
        t < clock ==> witnessed(clock, t) == clock,
        t >= 0x8000_0000_0000_0000 ==> witnessed(clock, t) == clock,
        acceptable(t) <==> t < 0x8000_0000_0000_0000,
{
}

} // verus!
