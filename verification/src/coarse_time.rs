//! A coarse timestamp, cached so that a packet needs no clock reading of its
//! own, and the clock readings it is made from.

use std::time::Instant;
use vstd::prelude::*;

verus! {

#[verifier::external_type_specification]
#[verifier::external_body]
pub struct ExInstant(std::time::Instant);

/// Reads the monotonic clock with `Instant::now`. Nothing is said of the
/// result: it depends on when the call is made.
#[verifier::external_body]
pub(crate) fn instant_now() -> (t: Instant)
{
    Instant::now()
}

/// The nanoseconds from `base` to now, by `Instant::elapsed`. Nothing is said
/// of the result: it depends on when the call is made.
#[verifier::external_body]
pub(crate) fn elapsed_nanos(base: &Instant) -> (ns: u128)
{
    base.elapsed().as_nanos()
}

/// The seconds from the Unix epoch to now, by `SystemTime::elapsed`; `None`
/// if the system clock stands before the epoch. Nothing is said of the
/// result: it depends on when the call is made.
#[verifier::external_body]
fn system_secs() -> (secs: Option<u64>)
{
    std::time::UNIX_EPOCH.elapsed().ok().map(|d| d.as_secs())
}

/// The seconds of a reading of the system clock; 0 while it stands before the epoch.
pub fn secs_since_epoch(reading: Option<u64>) -> (secs: u64)
    ensures
        secs == match reading {
            Some(s) => s,
            None => 0,
        },
{
    match reading {
        Some(s) => s,
        None => 0,
    }
}

/// Seconds since the Unix epoch; 0 while the system clock stands before it.
pub fn unix_secs() -> u64 {
    secs_since_epoch(system_secs())
}

/// The coarse clock: a base instant and the cached time since then.
pub struct CoarseClock {
    base: Instant,
    now_ms: u64,
}

/// What a clock shows after `elapsed_ns` nanoseconds: whole milliseconds, of
/// which it keeps 64 bits.
pub open spec fn clock_ms(elapsed_ns: u128) -> u64 {
    (elapsed_ns / 1_000_000) as u64
}

impl CoarseClock {
    /// The instant that the time is counted from.
    pub closed spec fn base(self) -> Instant {
        self.base
    }

    /// The cached time in milliseconds.
    pub closed spec fn ms(self) -> u64 {
        self.now_ms
    }

    /// Sets the cached time to `elapsed_ns` nanoseconds after the base.
    pub fn advance_to(&mut self, elapsed_ns: u128)
        ensures
            final(self).base() == old(self).base(),
            final(self).ms() == clock_ms(elapsed_ns),
    {
        self.now_ms = (elapsed_ns / 1_000_000) as u64;
    }
}

/// Starts a coarse clock. It shows whatever time has passed since its base was taken.
pub fn init() -> (clock: CoarseClock)
    ensures
        exists|ns: u128| clock.ms() == #[trigger] clock_ms(ns),
{
    let mut clock = CoarseClock { base: instant_now(), now_ms: 0 };
    update_coarse_time(&mut clock);
    clock
}

/// Updates the cached time from the monotonic clock. To be called periodically.
pub fn update_coarse_time(clock: &mut CoarseClock)
    ensures
        final(clock).base() == old(clock).base(),
        exists|ns: u128| final(clock).ms() == #[trigger] clock_ms(ns),
{
    let ns: u128 = elapsed_nanos(&clock.base);
    clock.advance_to(ns);
}

/// The cached time in milliseconds since the clock was started.
pub fn coarse_now_ms(clock: &CoarseClock) -> (ms: u64)
    ensures
        ms == clock.ms(),
{
    clock.now_ms
}

/// How long before `now_ms` the time `then_ms` was; 0 if it was not.
pub open spec fn elapsed_ms(now_ms: u64, then_ms: u64) -> int {
    if then_ms <= now_ms {
        now_ms - then_ms
    } else {
        0
    }
}

/// Whether `then_ms` lies `timeout_secs` seconds or more before `now_ms`.
pub open spec fn timed_out(now_ms: u64, then_ms: u64, timeout_secs: u64) -> bool {
    elapsed_ms(now_ms, then_ms) >= timeout_secs * 1000
}

/// Checks whether a timestamp (milliseconds since the start of the clock) is
/// `timeout_secs` old or older.
pub fn is_expired_secs(clock: &CoarseClock, timestamp_ms: u64, timeout_secs: u64) -> (r: bool)
    requires
        timeout_secs * 1000 <= u64::MAX,
    ensures
        r == timed_out(clock.ms(), timestamp_ms, timeout_secs),
{
    let now: u64 = coarse_now_ms(clock);
    let timeout_ms: u64 = timeout_secs * 1000;
    let age: u64 = if timestamp_ms <= now {
        now - timestamp_ms
    } else {
        0
    };
    age >= timeout_ms
}

/// A moment of a coarse clock.
#[derive(Debug, Clone, Copy)]
pub struct CoarseInstant {
    ms_since_init: u64,
}

impl CoarseInstant {
    /// When the moment was, in milliseconds since the start of the clock.
    pub closed spec fn ms(self) -> u64 {
        self.ms_since_init
    }

    /// The current moment.
    pub fn now(clock: &CoarseClock) -> (t: Self)
        ensures
            t.ms() == clock.ms(),
    {
        Self { ms_since_init: coarse_now_ms(clock) }
    }

    /// Whole seconds since this moment.
    pub fn elapsed_secs(&self, clock: &CoarseClock) -> (secs: u64)
        ensures
            secs == elapsed_ms(clock.ms(), self.ms()) / 1000,
    {
        let now: u64 = coarse_now_ms(clock);
        let age: u64 = if self.ms_since_init <= now {
            now - self.ms_since_init
        } else {
            0
        };
        age / 1000
    }

    /// Checks whether more than `secs` seconds have passed since this moment.
    pub fn is_older_than_secs(&self, clock: &CoarseClock, secs: u64) -> (r: bool)
        ensures
            r == (elapsed_ms(clock.ms(), self.ms()) > secs * 1000),
    {
        let now: u64 = coarse_now_ms(clock);
        let age: u64 = if self.ms_since_init <= now {
            now - self.ms_since_init
        } else {
            0
        };
        age as u128 > secs as u128 * 1000
    }
}

/// A timeout of `secs` seconds is over exactly when that many whole seconds have
/// passed. A moment is older than `secs` seconds from the next millisecond on.
pub proof fn age_in_seconds(now_ms: u64, then_ms: u64, secs: u64)
    ensures
        timed_out(now_ms, then_ms, secs) <==> elapsed_ms(now_ms, then_ms) / 1000 >= secs,
        elapsed_ms(now_ms, then_ms) > secs * 1000 <==> timed_out(now_ms, then_ms, secs)
            && elapsed_ms(now_ms, then_ms) != secs * 1000,
{
}

} // verus!
