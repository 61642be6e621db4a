//! Reading the wall clock.
use std::time::{Duration, SystemTime, SystemTimeError};
use vstd::prelude::*;

verus! {

/// Declares `std::time::SystemTime` to the verifier; its content is opaque.
#[verifier::external_type_specification]
#[verifier::external_body]
pub struct ExSystemTime(SystemTime);

/// Declares `std::time::SystemTimeError` to the verifier; its content is opaque.
#[verifier::external_type_specification]
#[verifier::external_body]
pub struct ExSystemTimeError(SystemTimeError);

/// Reads the wall clock.
///
/// Trusted: `SystemTime::now` returns some instant; nothing is stated of which.
#[verifier::external_body]
fn system_time_now() -> SystemTime {
    SystemTime::now()
}

/// The time elapsed between the Unix epoch and `t`.
///
/// Trusted: `SystemTime::duration_since` with `UNIX_EPOCH`; it fails for
/// instants before the epoch. Nothing is stated of the duration.
#[verifier::external_body]
fn since_unix_epoch(t: &SystemTime) -> Result<Duration, SystemTimeError> {
    t.duration_since(std::time::UNIX_EPOCH)
}

/// The number of whole nanoseconds in a duration.
///
/// Trusted: `Duration::as_nanos`; nothing is stated of the number.
#[verifier::external_body]
fn duration_nanos(d: &Duration) -> u128 {
    d.as_nanos()
}

/// How far before the Unix epoch the clock was, for a clock set before it.
///
/// Trusted: `SystemTimeError::duration`; nothing is stated of the duration.
#[verifier::external_body]
fn error_duration(e: &SystemTimeError) -> Duration {
    e.duration()
}

/// The current time, in nanoseconds since the Unix epoch, negative for a
/// clock set before it (saturated at the bounds of `i128`).
///
/// The clock may give any value; callers rely on no property of it.
pub fn now_timestamp() -> i128 {
    match since_unix_epoch(&system_time_now()) {
        Ok(d) => {
            let n = duration_nanos(&d);
            if n <= 0x7fff_ffff_ffff_ffff_ffff_ffff_ffff_ffffu128 {
                n as i128
            } else {
                0x7fff_ffff_ffff_ffff_ffff_ffff_ffff_ffffi128
            }
        },
        Err(e) => {
            let n = duration_nanos(&error_duration(&e));
            if n <= 0x7fff_ffff_ffff_ffff_ffff_ffff_ffff_ffffu128 {
                -(n as i128)
            } else {
                -0x7fff_ffff_ffff_ffff_ffff_ffff_ffff_ffffi128 - 1
            }
        },
    }
}

} // verus!
