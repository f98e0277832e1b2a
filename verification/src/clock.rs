//! The wall clock and the steady clock. Which time they show is not known before
//! they are read; what is made of a time is stated over the time.
use vstd::prelude::*;

verus! {

#[verifier::external_type_specification]
#[verifier::external_body]
pub struct ExSystemTime(std::time::SystemTime);

#[verifier::external_type_specification]
#[verifier::external_body]
pub struct ExSystemTimeError(std::time::SystemTimeError);

/// How many nanoseconds after the Unix epoch a time is; negative before it.
pub uninterp spec fn epoch_nanos(t: std::time::SystemTime) -> int;

/// How many nanoseconds a span lasts.
pub uninterp spec fn span_nanos(d: std::time::Duration) -> nat;

/// `SystemTime::now`: the current time; nothing is known of it.
pub assume_specification[ std::time::SystemTime::now ]() -> std::time::SystemTime
;

/// `SystemTime::duration_since` the Unix epoch: the span from the epoch to the
/// time, or an error for a time before it. How far before is left unsaid.
#[verifier::external_body]
fn since_epoch(t: std::time::SystemTime) -> (r: Result<
    std::time::Duration,
    std::time::SystemTimeError,
>)
    ensures
        match r {
            Ok(d) => span_nanos(d) == epoch_nanos(t),
            Err(_) => epoch_nanos(t) < 0,
        },
{
    t.duration_since(std::time::UNIX_EPOCH)
}

/// `Duration::as_millis`: the whole milliseconds of a span.
pub assume_specification[ std::time::Duration::as_millis ](d: &std::time::Duration) -> (r: u128)
    ensures
        r == span_nanos(*d) / 1_000_000,
;

/// `Duration::as_secs`: the whole seconds of a span.
pub assume_specification[ std::time::Duration::as_secs ](d: &std::time::Duration) -> (r: u64)
    ensures
        r == span_nanos(*d) / 1_000_000_000,
;

/// A count in 64 bits: the greatest one stands for all that do not fit.
pub open spec fn clamped(n: int) -> u64 {
    if n <= u64::MAX {
        n as u64
    } else {
        u64::MAX
    }
}

/// The whole milliseconds from the Unix epoch to a time; none before it.
pub open spec fn millis_of(t: std::time::SystemTime) -> u64 {
    if epoch_nanos(t) < 0 {
        0
    } else {
        clamped(epoch_nanos(t) / 1_000_000)
    }
}

/// The whole seconds from the Unix epoch to a time; none before it.
pub open spec fn seconds_of(t: std::time::SystemTime) -> u64 {
    if epoch_nanos(t) < 0 {
        0
    } else {
        clamped(epoch_nanos(t) / 1_000_000_000)
    }
}

/// Milliseconds from the Unix epoch to a time; `0` for one before it.
pub fn millis_at(t: std::time::SystemTime) -> (r: u64)
    ensures
        r == millis_of(t),
{
    match since_epoch(t) {
        Ok(d) => clamp_millis(d.as_millis()),
        Err(_) => 0,
    }
}

/// Seconds from the Unix epoch to a time; `0` for one before it.
pub fn seconds_at(t: std::time::SystemTime) -> (r: u64)
    ensures
        r == seconds_of(t),
{
    match since_epoch(t) {
        Ok(d) => d.as_secs(),
        Err(_) => 0,
    }
}

/// Milliseconds since the Unix epoch; `0` for a clock set before it.
pub fn unix_millis() -> (r: u64)
    ensures
        exists|t: std::time::SystemTime| r == #[trigger] millis_of(t),
{
    millis_at(std::time::SystemTime::now())
}

/// Seconds since the Unix epoch; `0` for a clock set before it.
pub fn unix_seconds() -> (r: u64)
    ensures
        exists|t: std::time::SystemTime| r == #[trigger] seconds_of(t),
{
    seconds_at(std::time::SystemTime::now())
}

#[verifier::external_type_specification]
#[verifier::external_body]
pub struct ExInstant(std::time::Instant);

/// `Instant::now`: a point of the steady clock; nothing is known of it.
pub assume_specification[ std::time::Instant::now ]() -> std::time::Instant
;

/// How many nanoseconds lie between two points of the steady clock; none where
/// `from` is the later one.
pub uninterp spec fn nanos_between(from: std::time::Instant, to: std::time::Instant) -> nat;

/// `Instant::duration_since`: the span from one point of the steady clock to
/// another, a function of the two. How it relates to the span between other
/// points is left unsaid.
pub assume_specification[ std::time::Instant::duration_since ](
    to: &std::time::Instant,
    from: std::time::Instant,
) -> (d: std::time::Duration)
    ensures
        span_nanos(d) == nanos_between(from, *to),
;

/// The whole milliseconds between two points of the steady clock.
pub open spec fn millis_between(from: std::time::Instant, to: std::time::Instant) -> u64 {
    clamped((nanos_between(from, to) / 1_000_000) as int)
}

/// Milliseconds from one point of the steady clock to another.
pub fn millis_from(from: std::time::Instant, to: std::time::Instant) -> (r: u64)
    ensures
        r == millis_between(from, to),
{
    clamp_millis(to.duration_since(from).as_millis())
}

/// A millisecond count that fits 64 bits: the greatest one stands for all that
/// do not.
pub fn clamp_millis(ms: u128) -> (r: u64)
    ensures
        r == clamped(ms as int),
{
    if ms <= u64::MAX as u128 {
        ms as u64
    } else {
        u64::MAX
    }
}

} // verus!
