use std::time::Duration;
use std::time::SystemTime;
use std::time::SystemTimeError;
use vstd::prelude::*;

verus! {

#[verifier::external_type_specification]
#[verifier::external_body]
pub struct ExSystemTime(SystemTime);

#[verifier::external_type_specification]
#[verifier::external_body]
pub struct ExSystemTimeError(SystemTimeError);

/// Calls `SystemTime::now`. The reading depends on the machine's clock, so
/// nothing is stated of it.
#[verifier::external_body]
fn system_time_now() -> SystemTime {
    SystemTime::now()
}

/// Calls `SystemTime::duration_since` with `UNIX_EPOCH` as the earlier time.
/// Whether it succeeds depends on the clock reading, so nothing is stated.
#[verifier::external_body]
fn duration_since_unix_epoch(t: &SystemTime) -> Result<Duration, SystemTimeError> {
    t.duration_since(std::time::UNIX_EPOCH)
}

/// Calls `Duration::as_nanos`: the whole nanoseconds in the duration. The
/// duration is opaque here, so nothing is stated of the number.
#[verifier::external_body]
fn duration_as_nanos(d: &Duration) -> u128 {
    d.as_nanos()
}

/// A nanosecond count narrowed to 64 bits: the elapsed time since the epoch
/// when it could be read (truncated as `as u64` does), and 0 when it could
/// not.
pub fn nanos_from_elapsed(elapsed: Option<u128>) -> (res: u64)
    ensures
        res == match elapsed {
            Some(n) => (n % 0x1_0000_0000_0000_0000) as u64,
            None => 0u64,
        },
{
    match elapsed {
        Some(n) => {
            let r = n as u64;
            assert(r == n % 0x1_0000_0000_0000_0000) by (bit_vector)
                requires
                    r == n as u64,
            ;
            r
        },
        None => 0,
    }
}

/// Nanoseconds since the Unix epoch, or 0 when the clock reads earlier than
/// the epoch. The value depends on the clock, so only its type is promised.
pub fn nanos_now() -> u64 {
    let now = system_time_now();
    let elapsed = match duration_since_unix_epoch(&now) {
        Ok(d) => Some(duration_as_nanos(&d)),
        Err(_) => None,
    };
    nanos_from_elapsed(elapsed)
}

} // verus!
