//! Durations, their texts, and the wall clock.

use std::time::{Duration, SystemTime};
use vstd::prelude::*;

verus! {

/// Nanoseconds in one second.
pub const NANOS_PER_SEC: u128 = 1_000_000_000;

/// Nanoseconds in one millisecond.
pub const NANOS_PER_MILLI: u128 = 1_000_000;

/// Nanoseconds in the longest `Duration`.
pub const MAX_NANOS: u128 = 18_446_744_073_709_551_615_999_999_999;

/// The length of `d` in nanoseconds, as `Duration::as_nanos` reports it.
pub uninterp spec fn duration_nanos(d: Duration) -> nat;

/// Calls `Duration::as_nanos`: the whole length of the duration in nanoseconds,
/// which is at most that of `Duration::MAX`.
#[verifier::external_body]
pub(crate) fn nanos_of(d: &Duration) -> (nanos: u128)
    ensures
        nanos == duration_nanos(*d),
        nanos <= MAX_NANOS,
{
    d.as_nanos()
}

/// Calls `Duration::new`: the duration of that many whole seconds and that many
/// further nanoseconds, which here are fewer than a second.
#[verifier::external_body]
fn duration_of(secs: u64, nanos: u32) -> (d: Duration)
    requires
        nanos < NANOS_PER_SEC,
    ensures
        duration_nanos(d) == secs * NANOS_PER_SEC + nanos,
{
    Duration::new(secs, nanos)
}

/// The duration of `nanos` nanoseconds.
pub fn from_nanos(nanos: u128) -> (d: Duration)
    requires
        nanos <= MAX_NANOS,
    ensures
        duration_nanos(d) == nanos,
{
    let secs: u128 = nanos / NANOS_PER_SEC;
    let rest: u128 = nanos % NANOS_PER_SEC;
    duration_of(secs as u64, rest as u32)
}

/// The duration of `millis` milliseconds.
pub fn from_millis(millis: u64) -> (d: Duration)
    ensures
        duration_nanos(d) == millis * NANOS_PER_MILLI,
{
    from_nanos(millis as u128 * NANOS_PER_MILLI)
}

/// The debug text of a duration of `nanos` nanoseconds, as `format!` writes it: with
/// `places` decimal places, or with as many as it takes. Its unit depends on the
/// length.
pub uninterp spec fn debug_text(nanos: nat, places: Option<nat>) -> Seq<char>;

/// Calls `format!` with `{:.*?}` on a duration: its debug text with `places` decimal
/// places.
#[verifier::external_body]
pub(crate) fn debug_of(d: &Duration, places: usize) -> (text: String)
    requires
        places <= 9,
    ensures
        text@ == debug_text(duration_nanos(*d), Some(places as nat)),
{
    format!("{:.*?}", places, d)
}

/// Calls `format!` with `{:?}` on a duration: its debug text with as many decimal
/// places as it takes.
#[verifier::external_body]
pub(crate) fn full_debug_of(d: &Duration) -> (text: String)
    ensures
        text@ == debug_text(duration_nanos(*d), None),
{
    format!("{:?}", d)
}

/// `std::time::SystemTime`, opaque to the verifier.
#[verifier::external_type_specification]
#[verifier::external_body]
pub struct ExSystemTime(SystemTime);

/// Reads the wall clock: `SystemTime::now`. Nothing is claimed of the result.
pub assume_specification[ SystemTime::now ]() -> SystemTime;

/// How long after the Unix epoch `time` is, if it is not before it, as
/// `SystemTime::duration_since` reports it.
pub uninterp spec fn since_epoch(time: SystemTime) -> Option<Duration>;

/// Calls `SystemTime::duration_since` with the Unix epoch: the time since then, or
/// nothing for a time before it.
#[verifier::external_body]
fn epoch_offset(time: SystemTime) -> (offset: Option<Duration>)
    ensures
        offset == since_epoch(time),
{
    time.duration_since(SystemTime::UNIX_EPOCH).ok()
}

/// Whole seconds of a time since the epoch; zero if there is none.
pub open spec fn whole_secs(offset: Option<Duration>) -> nat {
    match offset {
        Some(d) => duration_nanos(d) / NANOS_PER_SEC as nat,
        None => 0,
    }
}

/// Whole seconds of a time since the epoch; zero if there is none.
pub fn secs_or_zero(offset: Option<Duration>) -> (secs: u64)
    ensures
        secs == whole_secs(offset),
{
    match offset {
        Some(d) => (nanos_of(&d) / NANOS_PER_SEC) as u64,
        None => 0,
    }
}

/// The current Unix time in seconds, by the wall clock; zero if the clock stands
/// before the epoch.
pub fn unix_secs_now() -> (secs: u64)
    ensures
        exists|now: SystemTime| secs == whole_secs(#[trigger] since_epoch(now)),
{
    let now = SystemTime::now();
    secs_or_zero(epoch_offset(now))
}

/// The seconds of a time are its whole ones; no time has none.
pub proof fn seconds_are_whole(d: Duration)
    ensures
        whole_secs(Some(d)) * 1_000_000_000 <= duration_nanos(d) < (whole_secs(Some(d)) + 1)
            * 1_000_000_000,
        whole_secs(None) == 0,
{
}

} // verus!
