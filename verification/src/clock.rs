//! Clock readings: nanoseconds on a monotonic clock for ageing peers, and the
//! wall clock for send timestamps and start-up peer ids.
//!
//! What a clock reads depends on the moment of the call, so nothing is
//! claimed of a reading; the functions that turn readings into the values the
//! library uses take them as arguments and are specified exactly.

use std::time::{Duration, Instant, SystemTime, UNIX_EPOCH};
use vstd::prelude::*;

verus! {

#[verifier::external_type_specification]
#[verifier::external_body]
pub struct ExInstant(Instant);

#[verifier::external_type_specification]
#[verifier::external_body]
pub struct ExSystemTime(SystemTime);

/// Calls `Instant::now`. The reading is not described: it depends on when the
/// call happens.
#[verifier::external_body]
fn instant_now() -> (t: Instant) {
    Instant::now()
}

/// Calls `Instant::elapsed` on `t`. The duration is not described: it depends
/// on when the call happens.
#[verifier::external_body]
fn elapsed_since(t: &Instant) -> (d: Duration) {
    t.elapsed()
}

/// Calls `SystemTime::now`. The reading is not described.
#[verifier::external_body]
fn system_now() -> (t: SystemTime) {
    SystemTime::now()
}

/// Calls `SystemTime::duration_since` with `UNIX_EPOCH`, mapping the error
/// (the reading lies before the epoch) to `None`. Which of the two comes back
/// depends on the reading and is not described.
#[verifier::external_body]
fn since_unix_epoch(t: &SystemTime) -> (d: Option<Duration>) {
    match t.duration_since(UNIX_EPOCH) {
        Ok(d) => Some(d),
        Err(_) => None,
    }
}

/// Calls `Duration::as_millis`. A `Duration` is opaque here, so the count is
/// not described.
#[verifier::external_body]
fn duration_millis(d: &Duration) -> (ms: u128) {
    d.as_millis()
}

/// Calls `Duration::as_nanos`. A `Duration` is opaque here, so the count is
/// not described.
#[verifier::external_body]
fn duration_nanos(d: &Duration) -> (ns: u128) {
    d.as_nanos()
}

/// `ns` as a `u64`, saturating at `u64::MAX`.
pub open spec fn nanos_to_u64_spec(ns: u128) -> u64 {
    if ns > u64::MAX {
        u64::MAX
    } else {
        ns as u64
    }
}

/// `ns` as a `u64`, saturating at `u64::MAX`.
pub fn nanos_to_u64(ns: u128) -> (r: u64)
    ensures
        r == nanos_to_u64_spec(ns),
{
    if ns > u64::MAX as u128 {
        u64::MAX
    } else {
        ns as u64
    }
}

/// Nanoseconds elapsed since the clock was created, on the monotonic clock.
///
/// The clock remembers its last reading; readings never go backwards.
pub struct MonotonicClock {
    epoch: Instant,
    last_ns: u64,
}

impl MonotonicClock {
    /// The clock's last reading (0 before the first).
    pub closed spec fn last_reading(&self) -> u64 {
        self.last_ns
    }

    /// A clock whose zero is now.
    pub fn new() -> (c: MonotonicClock)
        ensures
            c.last_reading() == 0,
    {
        MonotonicClock { epoch: instant_now(), last_ns: 0 }
    }

    /// Nanoseconds since the clock was created (saturating, after some
    /// 584 years), as the platform reports them.
    pub fn elapsed_ns(&self) -> (ns: u64) {
        let d = elapsed_since(&self.epoch);
        nanos_to_u64(duration_nanos(&d))
    }

    /// Records the raw reading `r` and returns the clock's reading: `r`, or
    /// the last reading should `r` be below it.
    pub fn hold(&mut self, r: u64) -> (ns: u64)
        ensures
            ns == if r < old(self).last_reading() {
                old(self).last_reading()
            } else {
                r
            },
            final(self).last_reading() == ns,
        no_unwind
    {
        let ns = if r < self.last_ns {
            self.last_ns
        } else {
            r
        };
        self.last_ns = ns;
        ns
    }

    /// Nanoseconds since the clock was created. A reading is never below the
    /// one before it: `Instant` is documented as monotonic, and the clock
    /// holds to its last reading should the platform ever report less.
    pub fn now_ns(&mut self) -> (ns: u64)
        ensures
            ns >= old(self).last_reading(),
            final(self).last_reading() == ns,
    {
        let r = self.elapsed_ns();
        self.hold(r)
    }
}

/// The id a peer picks at start-up from a wall-clock reading in nanoseconds
/// since the Unix epoch: the low 64 bits of the reading, or `0xdead_beef`
/// when the clock reads before the epoch.
pub open spec fn peer_id_from_unix_nanos_spec(nanos: Option<u128>) -> u64 {
    match nanos {
        Some(n) => n as u64,
        None => 0xdead_beef,
    }
}

/// The start-up peer id for a wall-clock reading; see
/// `peer_id_from_unix_nanos_spec`.
pub fn peer_id_from_unix_nanos(nanos: Option<u128>) -> (id: u64)
    ensures
        id == peer_id_from_unix_nanos_spec(nanos),
{
    match nanos {
        Some(n) => n as u64,
        None => 0xdead_beef,
    }
}

/// A random-ish (not cryptographic) peer id taken from the wall clock: the
/// reading goes through `peer_id_from_unix_nanos`. Which id comes out depends
/// on the moment of the call, so nothing is stated of it.
pub fn fresh_peer_id() -> (id: u64) {
    let now = system_now();
    let nanos = match since_unix_epoch(&now) {
        Some(d) => Some(duration_nanos(&d)),
        None => None,
    };
    peer_id_from_unix_nanos(nanos)
}

/// The send timestamp for a wall-clock reading in milliseconds since the Unix
/// epoch: its low 64 bits, or 0 when the clock reads before the epoch.
pub open spec fn send_time_from_unix_millis_spec(millis: Option<u128>) -> u64 {
    match millis {
        Some(m) => m as u64,
        None => 0,
    }
}

/// The send timestamp for a wall-clock reading; see
/// `send_time_from_unix_millis_spec`.
pub fn send_time_from_unix_millis(millis: Option<u128>) -> (t: u64)
    ensures
        t == send_time_from_unix_millis_spec(millis),
{
    match millis {
        Some(m) => m as u64,
        None => 0,
    }
}

/// The current wall-clock time in milliseconds since the Unix epoch, as sent
/// in a snapshot (0 if the clock reads before the epoch): the reading goes
/// through `send_time_from_unix_millis`. It depends on the moment of the call,
/// so nothing is stated of it.
pub fn unix_time_ms() -> (t: u64) {
    let now = system_now();
    let millis = match since_unix_epoch(&now) {
        Some(d) => Some(duration_millis(&d)),
        None => None,
    };
    send_time_from_unix_millis(millis)
}

} // verus!
