//! Time: lengths of time as plain numbers, and the wall clock.

use vstd::prelude::*;

verus! {

/// A length of time, exact to the nanosecond.
#[derive(Debug, Clone, Copy, PartialEq, Eq, Structural)]
pub struct Duration {
    /// The length in nanoseconds.
    pub nanos: u128,
}

impl Duration {
    /// A length of whole seconds.
    pub fn from_secs(secs: u64) -> (res: Duration)
        ensures
            res.nanos == secs * 1_000_000_000,
    {
        Duration { nanos: secs as u128 * 1_000_000_000 }
    }

    /// A length of whole milliseconds.
    pub fn from_millis(millis: u64) -> (res: Duration)
        ensures
            res.nanos == millis * 1_000_000,
    {
        Duration { nanos: millis as u128 * 1_000_000 }
    }
}

/// `std::time::SystemTime`, carried as it is.
#[verifier::external_type_specification]
#[verifier::external_body]
pub struct ExSystemTime(std::time::SystemTime);

/// `std::time::SystemTime::now`: the wall clock. Nothing is claimed of its
/// reading.
pub assume_specification[ std::time::SystemTime::now ]() -> std::time::SystemTime
;

/// `std::time::SystemTime::duration_since`, from the Unix epoch: the length in
/// nanoseconds, or nothing on a clock that stands before the epoch. Nothing is
/// claimed of the length, nor of where the clock stands.
#[verifier::external_body]
fn since_epoch(now: std::time::SystemTime) -> Option<Duration> {
    now.duration_since(std::time::UNIX_EPOCH).ok().map(|d| Duration { nanos: d.as_nanos() })
}

/// How many whole units a clock reading comes to, in sixty-four bits: zero where
/// the clock stands before the epoch.
pub open spec fn whole_units(reading: Option<Duration>, nanos_per_unit: int) -> int {
    match reading {
        Some(d) => d.nanos as int / nanos_per_unit % 0x1_0000_0000_0000_0000,
        None => 0,
    }
}

/// The whole seconds since the Unix epoch in a clock reading.
pub fn secs_at(reading: Option<Duration>) -> (res: u64)
    ensures
        res == whole_units(reading, 1_000_000_000),
{
    match reading {
        Some(d) => (d.nanos / 1_000_000_000 % 0x1_0000_0000_0000_0000) as u64,
        None => 0,
    }
}

/// The whole milliseconds since the Unix epoch in a clock reading.
pub fn millis_at(reading: Option<Duration>) -> (res: u64)
    ensures
        res == whole_units(reading, 1_000_000),
{
    match reading {
        Some(d) => (d.nanos / 1_000_000 % 0x1_0000_0000_0000_0000) as u64,
        None => 0,
    }
}

/// The current time in whole seconds since the Unix epoch, and zero on a clock
/// that stands before it: what [`secs_at`] makes of the clock's reading, which
/// can be any.
pub fn now_secs() -> u64 {
    secs_at(since_epoch(std::time::SystemTime::now()))
}

/// The current time in whole milliseconds since the Unix epoch, and zero on a
/// clock that stands before it: what [`millis_at`] makes of the clock's reading,
/// which can be any.
pub fn now_ms() -> u64 {
    millis_at(since_epoch(std::time::SystemTime::now()))
}

/// A clock reading comes to the whole units that have passed, and no more: the next
/// unit has not passed yet.
pub proof fn only_whole_units_count(d: Duration, nanos_per_unit: int)
    requires
        nanos_per_unit > 0,
        d.nanos < nanos_per_unit * 0x1_0000_0000_0000_0000,
    ensures
        whole_units(Some(d), nanos_per_unit) * nanos_per_unit <= d.nanos,
        d.nanos < (whole_units(Some(d), nanos_per_unit) + 1) * nanos_per_unit,
        whole_units(None, nanos_per_unit) == 0,
{
    let n = d.nanos as int;
    let q = n / nanos_per_unit;
    vstd::arithmetic::div_mod::lemma_fundamental_div_mod(n, nanos_per_unit);
    vstd::arithmetic::div_mod::lemma_mod_bound(n, nanos_per_unit);
    assert(0 <= q < 0x1_0000_0000_0000_0000) by (nonlinear_arith)
        requires
            n == nanos_per_unit * q + n % nanos_per_unit,
            0 <= n % nanos_per_unit < nanos_per_unit,
            0 <= n < nanos_per_unit * 0x1_0000_0000_0000_0000,
            nanos_per_unit > 0,
    ;
    assert(q % 0x1_0000_0000_0000_0000 == q);
    assert(q * nanos_per_unit == nanos_per_unit * q) by (nonlinear_arith);
    assert((q + 1) * nanos_per_unit == nanos_per_unit * q + nanos_per_unit) by (nonlinear_arith);
}

} // verus!
