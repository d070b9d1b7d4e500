//! Clocks, instants and durations.
//!
//! An instant counts nanoseconds from the start of a clock, so that instants
//! can be compared and computed with as numbers. What depends on the time
//! takes the instant as an argument; only the outermost functions read a
//! clock.

use vstd::prelude::*;

verus! {

/// A span of time.
#[derive(Debug, Clone, Copy, PartialEq, Eq, Structural)]
pub struct Duration {
    pub secs: u64,
    pub nanos: u32,
}

impl Duration {
    /// The whole span in nanoseconds.
    pub open spec fn total(self) -> nat {
        self.secs as nat * 1_000_000_000 + self.nanos as nat
    }

    pub fn from_secs(secs: u64) -> (r: Duration)
        ensures
            r == (Duration { secs, nanos: 0 }),
            r.total() == secs * 1_000_000_000,
    {
        Duration { secs, nanos: 0 }
    }

    pub fn from_millis(millis: u64) -> (r: Duration)
        ensures
            r.total() == millis * 1_000_000,
            r.nanos < 1_000_000_000,
    {
        Duration { secs: millis / 1000, nanos: (millis % 1000) as u32 * 1_000_000 }
    }
}

/// A point in time: nanoseconds since the start of a clock.
#[derive(Debug, Clone, Copy, PartialEq, Eq, Structural)]
pub struct Instant {
    pub nanos: i128,
}

/// The latest instant that a clock tells. A `u64` of seconds more is still an
/// `i128` of nanoseconds.
pub const LAST_TICK: i128 = 0x1_0000_0000_0000_0000_0000_0000;

impl Instant {
    /// The instant `d` later.
    pub fn plus(self, d: Duration) -> (r: Instant)
        requires
            self.nanos + d.total() <= i128::MAX,
        ensures
            r.nanos == self.nanos + d.total(),
    {
        Instant { nanos: self.nanos + (d.secs as i128 * 1_000_000_000 + d.nanos as i128) }
    }

    /// The instant `d` earlier.
    pub fn minus(self, d: Duration) -> (r: Instant)
        requires
            self.nanos - d.total() >= i128::MIN,
        ensures
            r.nanos == self.nanos - d.total(),
    {
        Instant { nanos: self.nanos - (d.secs as i128 * 1_000_000_000 + d.nanos as i128) }
    }

    /// Whether `self` is later than `other`.
    pub fn is_after(self, other: Instant) -> (r: bool)
        ensures
            r == (self.nanos > other.nanos),
    {
        self.nanos > other.nanos
    }
}

/// A point on the system's monotonic clock; nothing is known of it.
#[verifier::external_type_specification]
#[verifier::external_body]
pub struct ExInstant(std::time::Instant);

/// `std::time::Instant::now` reads the monotonic clock. Nothing is claimed of
/// what it says.
pub assume_specification[ std::time::Instant::now ]() -> std::time::Instant;

/// The nanoseconds since `origin`, by `std::time::Instant::elapsed`. The
/// number rests on the time of the call, and nothing is claimed of it.
#[verifier::external_body]
fn nanos_since(origin: &std::time::Instant) -> u128 {
    origin.elapsed().as_nanos()
}

/// What `measure` tells of `origin`.
fn measured<F: Fn(&std::time::Instant) -> u128>(measure: F, origin: &std::time::Instant) -> (r:
    u128)
    requires
        call_requires(measure, (origin,)),
    ensures
        call_ensures(measure, (origin,), r),
{
    measure(origin)
}

/// The seconds since 1970-01-01, by `std::time::SystemTime::elapsed` on the
/// Unix epoch; nothing where the wall clock stands before it. The number rests
/// on the time of the call, and nothing is claimed of it.
#[verifier::external_body]
fn secs_since_epoch() -> Option<u64> {
    match std::time::UNIX_EPOCH.elapsed() {
        Ok(d) => Some(d.as_secs()),
        Err(_) => None,
    }
}

/// What `read` tells.
fn told<F: Fn() -> Option<u64>>(read: F) -> (r: Option<u64>)
    requires
        call_requires(read, ()),
    ensures
        call_ensures(read, (), r),
{
    read()
}

/// Whether a reading of the wall clock gives `reading`.
pub closed spec fn wall_clock(reading: Option<u64>) -> bool {
    call_ensures(secs_since_epoch, (), reading)
}

/// What the wall clock gives is what is told of the epoch, and nothing else.
proof fn wall_clock_is_told(reading: Option<u64>)
    ensures
        wall_clock(reading) <==> call_ensures(secs_since_epoch, (), reading),
{
}

/// Whether the wall clock shows `secs` seconds since 1970-01-01; before that it
/// shows 0.
pub open spec fn wall_clock_shows(secs: u64) -> bool {
    wall_clock(Some(secs)) || (secs == 0 && wall_clock(None))
}

/// A clock that counts from its start.
pub struct Clock {
    origin: std::time::Instant,
}

impl Clock {
    /// Whether a reading of the clock gives `n` nanoseconds.
    pub closed spec fn elapsed(&self, n: u128) -> bool {
        call_ensures(nanos_since, (&self.origin,), n)
    }

    /// Whether the clock shows `t`: the nanoseconds of a reading, as long as
    /// they are before the last tick.
    pub open spec fn shows(&self, t: Instant) -> bool {
        exists|n: u128| #[trigger]
            self.elapsed(n) && t.nanos == if n <= LAST_TICK {
                n as int
            } else {
                LAST_TICK as int
            }
    }

    /// What has elapsed is what is measured from the origin, and nothing else.
    proof fn elapsed_is_measured(&self, n: u128)
        ensures
            self.elapsed(n) <==> call_ensures(nanos_since, (&self.origin,), n),
    {
    }

    /// A clock that starts now.
    pub fn start() -> Clock {
        Clock { origin: std::time::Instant::now() }
    }

    /// The time since the start, at most `LAST_TICK`.
    pub fn now(&self) -> (r: Instant)
        ensures
            0 <= r.nanos <= LAST_TICK,
            self.shows(r),
    {
        let n = measured(nanos_since, &self.origin);
        proof {
            self.elapsed_is_measured(n);
        }
        if n <= LAST_TICK as u128 {
            Instant { nanos: n as i128 }
        } else {
            Instant { nanos: LAST_TICK }
        }
    }
}

/// A clock shows what has elapsed, nanosecond by nanosecond, until the last
/// tick, where it stays.
pub proof fn clock_shows_what_has_elapsed(c: Clock, t: Instant)
    requires
        c.shows(t),
    ensures
        0 <= t.nanos <= LAST_TICK,
        t.nanos < LAST_TICK ==> c.elapsed(t.nanos as u128),
        t.nanos == LAST_TICK ==> exists|n: u128| n >= LAST_TICK && #[trigger] c.elapsed(n),
{
}

/// The seconds that a reading of the wall clock stands for: none before 1970.
pub fn epoch_secs(reading: Option<u64>) -> (r: u64)
    ensures
        r == match reading {
            Some(s) => s,
            None => 0,
        },
{
    match reading {
        Some(s) => s,
        None => 0,
    }
}

/// Seconds since 1970-01-01 by the wall clock, and 0 before that.
pub fn unix_secs() -> (r: u64)
    ensures
        wall_clock_shows(r),
{
    let reading = told(secs_since_epoch);
    proof {
        wall_clock_is_told(reading);
    }
    epoch_secs(reading)
}

} // verus!
