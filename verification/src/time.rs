//! Time primitives: millisecond timestamps for heartbeats and fail-safe timing.
use vstd::prelude::*;

verus! {

/// Relative timestamp in milliseconds.
pub type Timestamp = u64;

#[verifier::external_type_specification]
#[verifier::external_body]
pub struct ExSystemTime(std::time::SystemTime);

#[verifier::external_type_specification]
#[verifier::external_body]
pub struct ExSystemTimeError(std::time::SystemTimeError);

/// `SystemTime::now`: the system clock's current reading. Nothing is stated of
/// it: it depends on the clock.
#[verifier::external_body]
fn system_now() -> std::time::SystemTime {
    std::time::SystemTime::now()
}

/// `SystemTime::duration_since(UNIX_EPOCH)`: the time elapsed since the Unix
/// epoch, or an error for a clock set before it. Nothing is stated of the value.
#[verifier::external_body]
fn since_unix_epoch(t: &std::time::SystemTime) -> std::result::Result<
    std::time::Duration,
    std::time::SystemTimeError,
> {
    t.duration_since(std::time::UNIX_EPOCH)
}

/// `Duration::as_millis`: whole milliseconds of a duration. Nothing is stated
/// of the value (the duration's fields are not visible here).
#[verifier::external_body]
fn duration_millis(d: &std::time::Duration) -> u128 {
    d.as_millis()
}

/// Milliseconds between `last` and `now`, zero when `now` precedes `last`.
pub fn elapsed_between(now: Timestamp, last: Timestamp) -> (d: u64)
    ensures
        d == (if now >= last {
            now - last
        } else {
            0
        }),
{
    now.saturating_sub(last)
}

/// The current timestamp (milliseconds since the Unix epoch, truncated to 64
/// bits); 0 when the clock reads before the epoch.
pub fn instant_now() -> (t: Timestamp) {
    let now = system_now();
    match since_unix_epoch(&now) {
        Ok(d) => duration_millis(&d) as u64,
        Err(_) => 0,
    }
}

/// Milliseconds elapsed since `last` (zero if the clock reads earlier).
pub fn elapsed_since(last: Timestamp) -> (d: u64)
    ensures
        last + d <= u64::MAX,
{
    elapsed_between(instant_now(), last)
}

} // verus!
