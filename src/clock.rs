//! Durations in whole milliseconds.

use vstd::prelude::*;

use std::time::Duration;

verus! {

/// The whole seconds of a duration.
pub uninterp spec fn whole_secs(d: Duration) -> u64;

/// The nanoseconds of a duration beyond its whole seconds.
pub uninterp spec fn subsec_nanos_of(d: Duration) -> u32;

/// Relies on `Duration::as_secs`: the whole seconds.
pub assume_specification[ Duration::as_secs ](d: &Duration) -> (r: u64)
    ensures
        r == whole_secs(*d),
;

/// Relies on `Duration::subsec_nanos`: the fractional part, always below one
/// second.
pub assume_specification[ Duration::subsec_nanos ](d: &Duration) -> (r: u32)
    ensures
        r == subsec_nanos_of(*d),
        r < 1_000_000_000,
;

/// A duration in whole milliseconds.
pub open spec fn millis_of(d: Duration) -> int {
    whole_secs(d) * 1000 + subsec_nanos_of(d) / 1_000_000
}

/// The duration in whole milliseconds, rounded down.
pub fn duration_to_millis(d: Duration) -> (r: u64)
    requires
        whole_secs(d) <= (u64::MAX - 999) / 1000,
    ensures
        r == millis_of(d),
{
    let secs = d.as_secs();
    let nanos = d.subsec_nanos();
    secs * 1000 + nanos as u64 / 1_000_000
}

} // verus!
