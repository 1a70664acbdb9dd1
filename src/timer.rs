//! The timer source: a monotonic clock read in nanoseconds.
use vstd::prelude::*;

use crate::error::BenchError;

verus! {

#[verifier::external_type_specification]
#[verifier::external_body]
pub struct ExErrno(nix::errno::Errno);

pub const NANOS_PER_SEC: u64 = 1_000_000_000;

/// Relies on nix::time::clock_gettime with CLOCK_MONOTONIC: the clock's
/// reading as whole seconds and nanoseconds, or the errno of a failed read.
#[verifier::external_body]
fn read_monotonic_clock() -> (r: Result<(i64, i64), nix::errno::Errno>) {
    match nix::time::clock_gettime(nix::time::ClockId::CLOCK_MONOTONIC) {
        Ok(ts) => Ok((ts.tv_sec() as i64, ts.tv_nsec() as i64)),
        Err(e) => Err(e),
    }
}

/// The timestamp of a clock reading, in nanoseconds.
pub open spec fn timestamp_of(sec: int, nsec: int) -> int {
    sec * NANOS_PER_SEC + nsec
}

/// A clock reading is usable when it is well formed and its timestamp fits.
pub open spec fn reading_in_range(sec: int, nsec: int) -> bool {
    &&& 0 <= sec
    &&& 0 <= nsec < NANOS_PER_SEC
    &&& timestamp_of(sec, nsec) <= u64::MAX
}

/// Converts a clock reading to a timestamp in nanoseconds.
pub fn timestamp_from_reading(sec: i64, nsec: i64) -> (r: Result<u64, BenchError>)
    ensures
        reading_in_range(sec as int, nsec as int) ==> r == Ok::<u64, BenchError>(
            timestamp_of(sec as int, nsec as int) as u64,
        ),
        !reading_in_range(sec as int, nsec as int) ==> r == Err::<u64, BenchError>(
            BenchError::TimerUnavailable,
        ),
{
    if sec < 0 || nsec < 0 || nsec >= NANOS_PER_SEC as i64 {
        return Err(BenchError::TimerUnavailable);
    }
    let s = sec as u64;
    let ns = nsec as u64;
    let lim = (u64::MAX - ns) / NANOS_PER_SEC;
    if s > lim {
        assert(s * 1_000_000_000 + ns > u64::MAX) by (nonlinear_arith)
            requires
                s > lim,
                lim == (u64::MAX - ns) / 1_000_000_000,
                ns <= u64::MAX,
        ;
        return Err(BenchError::TimerUnavailable);
    }
    assert(s * 1_000_000_000 + ns <= u64::MAX) by (nonlinear_arith)
        requires
            s <= lim,
            lim == (u64::MAX - ns) / 1_000_000_000,
            ns <= u64::MAX,
    ;
    Ok(s * NANOS_PER_SEC + ns)
}

/// Reads the monotonic clock, in nanoseconds.
///
/// Fails with `TimerUnavailable` when the clock cannot be read or its
/// reading is not a timestamp.
pub fn get_timer_value() -> (r: Result<u64, BenchError>)
    ensures
        r matches Err(e) ==> e == BenchError::TimerUnavailable,
{
    match read_monotonic_clock() {
        Ok((sec, nsec)) => timestamp_from_reading(sec, nsec),
        Err(_) => Err(BenchError::TimerUnavailable),
    }
}

} // verus!
