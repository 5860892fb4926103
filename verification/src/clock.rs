//! The library's only window onto the host: the monotonic clock and the
//! standard library's duration type.
//!
//! Everything here is trusted: Verus believes these contracts without
//! reading the standard library. Each item states no more than the standard
//! library documents.

use vstd::prelude::*;

use crate::interval::{Interval, NANOS_PER_SEC};

use std::time::{Duration, Instant};

verus! {

/// An opaque reading of the host's monotonic clock.
#[verifier::external_type_specification]
#[verifier::external_body]
pub struct ExInstant(Instant);

/// Relies on std::time::Instant::now: an opaque reading of the monotonic
/// clock; nothing is assumed of its value.
pub assume_specification[ Instant::now ]() -> Instant;

/// Relies on std::time::Instant::elapsed: the time since this reading was
/// taken, as an opaque duration; nothing is assumed of its value.
pub assume_specification[ Instant::elapsed ](earlier: &Instant) -> Duration;

/// Relies on std::time::Duration::new: builds a duration from whole seconds
/// and nanoseconds. A nanosecond part below one billion never carries, so
/// the call cannot overflow and panic.
pub assume_specification[ Duration::new ](secs: u64, nanos: u32) -> Duration
    requires
        nanos < NANOS_PER_SEC,
;

/// Relies on std::time::Duration::as_secs: the whole-second part; nothing
/// is assumed of its value.
pub assume_specification[ Duration::as_secs ](d: &Duration) -> u64;

/// Relies on std::time::Duration::subsec_nanos: the fractional part in
/// nanoseconds, documented to be less than one billion.
pub assume_specification[ Duration::subsec_nanos ](d: &Duration) -> (n: u32)
    ensures
        n < NANOS_PER_SEC,
;

/// The duration since `earlier`, as an interval. The value depends on the
/// clock, so only well-formedness is promised.
pub fn interval_since(earlier: &Instant) -> (r: Interval)
    ensures
        r.wf(),
{
    let d = earlier.elapsed();
    Interval { secs: d.as_secs(), nanos: d.subsec_nanos() }
}

/// The bit pattern of the IEEE-754 double giving an interval's length in
/// seconds: a pure function of the interval's two fields.
pub uninterp spec fn secs_to_double_bits(secs: u64, nanos: u32) -> u64;

/// Relies on std::time::Duration::as_secs_f64 (with Duration::new to build
/// the argument and f64::to_bits to read the result): the nearest double to
/// the duration's length in seconds, a value that depends on the duration
/// alone.
#[verifier::external_body]
pub fn interval_double_bits(iv: &Interval) -> (r: u64)
    requires
        iv.wf(),
    ensures
        r == secs_to_double_bits(iv.secs, iv.nanos),
{
    Duration::new(iv.secs, iv.nanos).as_secs_f64().to_bits()
}

} // verus!
