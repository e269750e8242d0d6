//! The system clock, read through one thin wrapper per std function, and
//! string building.

use std::time::{Duration, SystemTime, SystemTimeError};

use vstd::prelude::*;
use vstd::string::StringExecFns;

verus! {

#[verifier::external_type_specification]
#[verifier::external_body]
pub struct ExSystemTime(SystemTime);

#[verifier::external_type_specification]
#[verifier::external_body]
pub struct ExSystemTimeError(SystemTimeError);

/// Calls `std::time::SystemTime::now`. Nothing is claimed of the value: it
/// depends on the machine's clock.
#[verifier::external_body]
fn system_now() -> SystemTime {
    SystemTime::now()
}

/// Calls `SystemTime::duration_since` with `UNIX_EPOCH`: the time elapsed
/// since the epoch, or an error for a time before it. Nothing is claimed of
/// which: it depends on the value read from the clock.
#[verifier::external_body]
fn since_unix_epoch(t: &SystemTime) -> Result<Duration, SystemTimeError> {
    t.duration_since(std::time::UNIX_EPOCH)
}

/// Calls `Duration::as_micros`: the whole microseconds of `d`. Nothing is
/// claimed of the value, as the duration is opaque here.
#[verifier::external_body]
fn duration_micros(d: &Duration) -> u128 {
    d.as_micros()
}

/// Microseconds since the UNIX epoch by the system clock: zero for a clock
/// set before the epoch, `u64::MAX` for one past what `u64` holds.
pub(crate) fn now_micros() -> u64 {
    match since_unix_epoch(&system_now()) {
        Ok(d) => {
            let m = duration_micros(&d);
            if m > 0xffff_ffff_ffff_ffffu128 {
                u64::MAX
            } else {
                m as u64
            }
        },
        Err(_) => 0,
    }
}

/// A new string that holds `head` followed by `tail`.
pub(crate) fn concat(head: &str, tail: &str) -> (r: String)
    ensures
        r@ == head@ + tail@,
{
    let mut s = head.to_owned();
    s.append(tail);
    s
}

} // verus!
