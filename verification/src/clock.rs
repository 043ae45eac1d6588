//! Wall-clock timestamps in nanoseconds since the Unix epoch, and the pure
//! arithmetic that projects them onto coarser units.

use vstd::prelude::*;

verus! {

/// Relies on std::time::SystemTime::now, read as nanoseconds since the Unix
/// epoch; a clock that reads before the epoch comes back as zero.
#[verifier::external_body]
pub fn now_timestamp_nanos() -> u128 {
    match std::time::SystemTime::now().duration_since(std::time::UNIX_EPOCH) {
        Ok(d) => d.as_nanos(),
        Err(_) => 0,
    }
}

/// The millisecond count within the current second of a nanosecond timestamp.
pub fn millis_of_nanos(nanos: u128) -> (r: u128)
    ensures
        r == (nanos / 1_000_000) % 1000,
{
    (nanos / 1_000_000) % 1000
}

/// The microsecond count within the current millisecond of a nanosecond
/// timestamp.
pub fn micros_of_nanos(nanos: u128) -> (r: u128)
    ensures
        r == (nanos / 1_000) % 1000,
{
    (nanos / 1_000) % 1000
}

/// The epoch-second of a nanosecond timestamp: the key of the bucket a send
/// falls into.
pub fn seconds_of_nanos(nanos: u128) -> (r: u128)
    ensures
        r == nanos / 1_000_000_000,
{
    nanos / 1_000_000_000
}

/// The current millisecond within the second, from the wall clock.
pub fn now_timestamp_millis() -> (r: u128)
    ensures
        r < 1000,
{
    millis_of_nanos(now_timestamp_nanos())
}

/// The current microsecond within the millisecond, from the wall clock.
pub fn now_timestamp_micros() -> (r: u128)
    ensures
        r < 1000,
{
    micros_of_nanos(now_timestamp_nanos())
}

/// The current epoch-second, from the wall clock.
pub fn now_timestamp_seconds() -> u128 {
    seconds_of_nanos(now_timestamp_nanos())
}

} // verus!
