//! Durations of a QoS profile, kept as the whole seconds and the remaining
//! nanoseconds that a `chrono::TimeDelta` reports for them.
use vstd::prelude::*;

verus! {

/// A signed duration as `(num_seconds, subsec_nanos)`: both parts carry the
/// sign of the duration and `|nanos| < 1_000_000_000`.
#[derive(Debug, Clone, Copy, PartialEq, Eq, Structural)]
pub struct RosDuration {
    pub secs: i64,
    pub nanos: i32,
}

pub open spec fn nanos_per_sec() -> int {
    1_000_000_000
}

/// Division rounding toward zero, for a positive divisor.
pub open spec fn trunc_div(t: int, d: int) -> int {
    if t >= 0 {
        t / d
    } else {
        -((-t) / d)
    }
}

/// The duration of `t` nanoseconds, split as `TimeDelta` reports it.
pub open spec fn duration_of_nanos(t: int) -> RosDuration {
    RosDuration {
        secs: trunc_div(t, nanos_per_sec()) as i64,
        nanos: (t - trunc_div(t, nanos_per_sec()) * nanos_per_sec()) as i32,
    }
}

/// The seconds that `TimeDelta::seconds` accepts without panicking.
pub open spec fn seconds_in_range(s: int) -> bool {
    -(i64::MAX / 1000) <= s <= i64::MAX / 1000
}

/// The nanoseconds a `TimeDelta` can hold: at most `i64::MAX` milliseconds
/// in either direction.
pub open spec fn total_in_range(t: int) -> bool {
    -(i64::MAX * 1_000_000) <= t <= i64::MAX * 1_000_000
}

/// The total number of nanoseconds of `d`.
pub open spec fn total_nanos(d: RosDuration) -> int {
    d.secs * nanos_per_sec() + d.nanos
}

/// `TimeDelta::seconds(secs) + TimeDelta::nanoseconds(nanos)`, read back with
/// `num_seconds` and `subsec_nanos`. chrono's source: `seconds` panics outside
/// `±i64::MAX / 1000`, `nanoseconds` is exact for every `i64`, the sum panics
/// outside `±i64::MAX` milliseconds, and `subsec_nanos() + num_seconds() *
/// 1_000_000_000` is the total, with `num_seconds` rounded toward zero.
#[verifier::external_body]
fn timedelta_seconds_plus_nanoseconds(secs: i64, nanos: i64) -> (parts: (i64, i32))
    requires
        seconds_in_range(secs as int),
        total_in_range(secs * nanos_per_sec() + nanos),
    ensures
        parts.0 as int == trunc_div(secs * nanos_per_sec() + nanos, nanos_per_sec()),
        parts.1 as int == secs * nanos_per_sec() + nanos - parts.0 * nanos_per_sec(),
{
    let d = chrono::TimeDelta::seconds(secs) + chrono::TimeDelta::nanoseconds(nanos);
    (d.num_seconds(), d.subsec_nanos())
}

pub proof fn lemma_duration_of_nanos_total(t: int)
    requires
        total_in_range(t),
    ensures
        total_nanos(duration_of_nanos(t)) == t,
        -nanos_per_sec() < duration_of_nanos(t).nanos < nanos_per_sec(),
{
    let q = trunc_div(t, nanos_per_sec());
    if t >= 0 {
        assert(0 <= t - q * nanos_per_sec() < nanos_per_sec());
    } else {
        assert(0 <= (-t) - ((-t) / nanos_per_sec()) * nanos_per_sec() < nanos_per_sec());
    }
    assert(i64::MIN <= q <= i64::MAX);
}

/// The duration of `secs` seconds plus `nanos` nanoseconds, computed by chrono.
pub fn duration_from_parts(secs: i64, nanos: i64) -> (d: RosDuration)
    requires
        seconds_in_range(secs as int),
        total_in_range(secs * nanos_per_sec() + nanos),
    ensures
        d == duration_of_nanos(secs * nanos_per_sec() + nanos),
{
    let (s, n) = timedelta_seconds_plus_nanoseconds(secs, nanos);
    proof { lemma_duration_of_nanos_total(secs * nanos_per_sec() + nanos); }
    RosDuration { secs: s, nanos: n }
}

/// The value a QoS profile gives a duration it does not set:
/// `TimeDelta::nanoseconds(i64::MAX)`.
pub open spec fn default_duration_spec() -> RosDuration {
    duration_of_nanos(i64::MAX as int)
}

/// `i64::MAX` nanoseconds.
pub fn default_duration() -> (d: RosDuration)
    ensures
        d == default_duration_spec(),
        d.secs == 9_223_372_036,
        d.nanos == 854_775_807,
{
    let d = duration_from_parts(0, i64::MAX);
    assert(0 * nanos_per_sec() + i64::MAX == i64::MAX as int);
    d
}

} // verus!
