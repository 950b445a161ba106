//! The board's clock. Instants and durations are counts of its ticks; the
//! arithmetic on them is `embassy_time`'s.

use vstd::prelude::*;

verus! {

/// Ticks per second, as `embassy-time` is built here (feature `tick-hz-32_768`).
pub const TICK_HZ: u64 = 32_768;

/// Milliseconds from the start of the board to an instant, rounded down.
///
/// Calls `embassy_time::Instant::as_millis`. Its product of ticks and 125
/// (1000 over the greatest divisor that it shares with the tick rate) has to
/// fit, or it would overflow.
#[verifier::external_body]
pub(crate) fn as_millis(instant: u64) -> (ms: u64)
    requires
        instant * 125 <= u64::MAX,
    ensures
        ms == instant * 1000 / TICK_HZ as int,
{
    embassy_time::Instant::from_ticks(instant).as_millis()
}

/// The time from `earlier` to `now`.
///
/// Calls the subtraction of one `embassy_time::Instant` from another, which
/// panics when the second is the later one.
#[verifier::external_body]
pub(crate) fn since(now: u64, earlier: u64) -> (ticks: u64)
    requires
        earlier <= now,
    ensures
        ticks == now - earlier,
{
    (embassy_time::Instant::from_ticks(now) - embassy_time::Instant::from_ticks(earlier)).as_ticks()
}

/// The instant `duration` after another.
///
/// Calls the addition of an `embassy_time::Duration` to an `Instant`, which
/// panics when the clock cannot count that far.
#[verifier::external_body]
pub(crate) fn after(instant: u64, duration: u64) -> (later: u64)
    requires
        instant + duration <= u64::MAX,
    ensures
        later == instant + duration,
{
    let duration = embassy_time::Duration::from_ticks(duration);
    (embassy_time::Instant::from_ticks(instant) + duration).as_ticks()
}

/// A duration of whole seconds.
///
/// Calls `embassy_time::Duration::from_secs`.
#[verifier::external_body]
pub(crate) fn secs(n: u64) -> (ticks: u64)
    requires
        n * TICK_HZ <= u64::MAX,
    ensures
        ticks == n * TICK_HZ,
{
    embassy_time::Duration::from_secs(n).as_ticks()
}

/// Ticks of one period at `hz` per second, to the nearest tick.
pub open spec fn period(hz: nat) -> int {
    (TICK_HZ + hz / 2) / hz as int
}

/// The period of something that happens `hz` times a second.
///
/// Calls `embassy_time::Duration::from_hz`, which rounds to the nearest tick;
/// at the tick rate and above it clamps to one tick.
#[verifier::external_body]
pub(crate) fn from_hz(hz: u64) -> (ticks: u64)
    requires
        0 < hz < TICK_HZ,
    ensures
        ticks == period(hz as nat),
{
    embassy_time::Duration::from_hz(hz).as_ticks()
}

/// Readings older than this many seconds are flagged as stale.
pub const STALE_AFTER_SECS: u64 = 3;

/// Whether a reading taken at `at` is stale at `now`. No reading is not a stale
/// reading.
pub open spec fn is_stale(at: Option<u64>, now: u64) -> bool {
    at matches Some(t) && now - t > STALE_AFTER_SECS * TICK_HZ
}

/// Whether a stamp is not from the future.
pub open spec fn taken_by(at: Option<u64>, now: u64) -> bool {
    at matches Some(t) ==> t <= now
}

pub fn stale(at: Option<u64>, now: u64) -> (b: bool)
    requires
        taken_by(at, now),
    ensures
        b == is_stale(at, now),
{
    match at {
        Some(t) => since(now, t) > secs(STALE_AFTER_SECS),
        None => false,
    }
}

} // verus!
