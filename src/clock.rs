//! Readings of the system clocks, and their conversion to whole milliseconds.
//!
//! What a clock reads is outside anything that can be proved, so the readings carry
//! no promise beyond their type. The conversion to milliseconds is verified.
use vstd::prelude::*;
use std::time::{Duration, Instant, SystemTime, UNIX_EPOCH};

verus! {

#[verifier::external_type_specification]
#[verifier::external_body]
pub struct ExInstant(Instant);

#[verifier::external_type_specification]
#[verifier::external_body]
pub struct ExSystemTime(SystemTime);

/// Relies on `Duration::as_secs`: the whole seconds of a duration.
pub assume_specification[ core::time::Duration::as_secs ](d: &core::time::Duration) -> u64;

/// Relies on `Duration::subsec_nanos`: the fractional part of a duration in
/// nanoseconds, which std documents as always less than one billion.
pub assume_specification[ core::time::Duration::subsec_nanos ](d: &core::time::Duration) -> (r: u32)
    ensures
        r < 1_000_000_000,
;

/// Relies on `Instant::now`: a reading of the monotonic clock.
#[verifier::external_body]
pub(crate) fn monotonic_now() -> Instant {
    Instant::now()
}

/// Relies on `Instant::elapsed`: the time that has passed since `anchor` on the
/// monotonic clock.
#[verifier::external_body]
pub(crate) fn elapsed_since(anchor: &Instant) -> Duration {
    anchor.elapsed()
}

/// Relies on `SystemTime::now`: a reading of the wall clock.
#[verifier::external_body]
pub(crate) fn wall_now() -> SystemTime {
    SystemTime::now()
}

/// Relies on `SystemTime::duration_since`: the time from the Unix epoch to `t`, or
/// `None` when `t` lies before the Unix epoch.
#[verifier::external_body]
pub(crate) fn since_unix_epoch(t: &SystemTime) -> Option<Duration> {
    t.duration_since(UNIX_EPOCH).ok()
}

/// Whole milliseconds in `secs` seconds and `nanos` nanoseconds.
pub open spec fn millis_spec(secs: u64, nanos: u32) -> int {
    secs * 1000 + nanos / 1_000_000
}

/// Whole milliseconds in `secs` seconds and `nanos` nanoseconds, saturating at
/// `u64::MAX` (a span of some 584 million years).
pub fn millis_of(secs: u64, nanos: u32) -> (r: u64)
    requires
        nanos < 1_000_000_000,
    ensures
        r == (if millis_spec(secs, nanos) > u64::MAX { u64::MAX as int } else { millis_spec(secs, nanos) }),
{
    let sub_ms = (nanos / 1_000_000) as u64;
    match secs.checked_mul(1000) {
        Some(whole_ms) => whole_ms.saturating_add(sub_ms),
        None => u64::MAX,
    }
}

/// Whole milliseconds in `d`, saturating at `u64::MAX`.
pub fn duration_millis(d: &Duration) -> u64 {
    millis_of(d.as_secs(), d.subsec_nanos())
}

/// Milliseconds from the Unix epoch to now on the wall clock; 0 when the wall clock
/// reads a time before the Unix epoch.
pub fn wall_clock_millis() -> u64 {
    match since_unix_epoch(&wall_now()) {
        Some(d) => duration_millis(&d),
        None => 0,
    }
}

/// Milliseconds that have passed since `anchor` on the monotonic clock.
pub fn elapsed_millis(anchor: &Instant) -> u64 {
    duration_millis(&elapsed_since(anchor))
}

} // verus!
