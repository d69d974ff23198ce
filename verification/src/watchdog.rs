//! GuardWatchdog: monitors the liveness of the Guard process through heartbeats.

use vstd::prelude::*;
use std::time::{Duration, Instant};
use crate::clock::{duration_from_millis, elapsed_nanos, elapsed_since, instant_now, millis_as_duration};

verus! {

/// Whether a heartbeat `elapsed_ns` nanoseconds old is within a `timeout_ms` timeout.
pub open spec fn within_timeout(elapsed_ns: u128, timeout_ms: u64) -> bool {
    elapsed_ns < timeout_ms * 1_000_000
}

/// Watchdog that monitors Guard process heartbeats.
pub struct GuardWatchdog {
    heartbeat_interval_ms: u64,
    timeout_ms: u64,
    /// Time of the last heartbeat.
    pub last_heartbeat: Instant,
    heartbeat_count: u64,
    missed_count: u64,
}

impl GuardWatchdog {
    pub closed spec fn spec_interval_ms(&self) -> u64 {
        self.heartbeat_interval_ms
    }

    pub closed spec fn spec_timeout_ms(&self) -> u64 {
        self.timeout_ms
    }

    pub closed spec fn spec_heartbeats(&self) -> u64 {
        self.heartbeat_count
    }

    pub closed spec fn spec_missed(&self) -> u64 {
        self.missed_count
    }

    /// A watchdog with the given heartbeat interval and timeout, counting from now.
    pub fn new(heartbeat_interval_ms: u64, timeout_ms: u64) -> (w: GuardWatchdog)
        ensures
            w.spec_interval_ms() == heartbeat_interval_ms,
            w.spec_timeout_ms() == timeout_ms,
            w.spec_heartbeats() == 0,
            w.spec_missed() == 0,
    {
        GuardWatchdog {
            heartbeat_interval_ms,
            timeout_ms,
            last_heartbeat: instant_now(),
            heartbeat_count: 0,
            missed_count: 0,
        }
    }

    /// Records a heartbeat: restarts the clock, counts the heartbeat (wrapping) and
    /// clears the missed count.
    pub fn heartbeat(&mut self)
        ensures
            final(self).spec_heartbeats() == old(self).spec_heartbeats().wrapping_add(1),
            final(self).spec_missed() == 0,
            final(self).spec_interval_ms() == old(self).spec_interval_ms(),
            final(self).spec_timeout_ms() == old(self).spec_timeout_ms(),
    {
        self.last_heartbeat = instant_now();
        self.heartbeat_count = self.heartbeat_count.wrapping_add(1);
        self.missed_count = 0;
    }

    /// Whether a heartbeat that is `elapsed_ns` old keeps the Guard alive.
    pub fn is_alive_after(&self, elapsed_ns: u128) -> (r: bool)
        ensures
            r == within_timeout(elapsed_ns, self.spec_timeout_ms()),
    {
        elapsed_ns < (self.timeout_ms as u128) * 1_000_000
    }

    /// Whether the Guard is alive: the last heartbeat is younger than the timeout.
    pub fn is_alive(&self) -> (r: bool)
        ensures
            self.spec_timeout_ms() == 0 ==> !r,
    {
        let e = elapsed_nanos(&self.last_heartbeat);
        self.is_alive_after(e)
    }

    /// Counts a missed heartbeat when one that is `elapsed_ns` old has timed out;
    /// returns whether it has.
    pub fn check_timeout_after(&mut self, elapsed_ns: u128) -> (timed_out: bool)
        requires
            old(self).spec_missed() < u64::MAX,
        ensures
            timed_out == !within_timeout(elapsed_ns, old(self).spec_timeout_ms()),
            final(self).spec_missed() == if timed_out {
                old(self).spec_missed() + 1
            } else {
                old(self).spec_missed() as int
            },
            final(self).spec_heartbeats() == old(self).spec_heartbeats(),
            final(self).spec_interval_ms() == old(self).spec_interval_ms(),
            final(self).spec_timeout_ms() == old(self).spec_timeout_ms(),
    {
        if elapsed_ns >= (self.timeout_ms as u128) * 1_000_000 {
            self.missed_count = self.missed_count + 1;
            true
        } else {
            false
        }
    }

    /// Counts a missed heartbeat if the timeout has passed; returns whether it has.
    pub fn check_timeout(&mut self) -> (timed_out: bool)
        requires
            old(self).spec_missed() < u64::MAX,
        ensures
            final(self).spec_missed() == if timed_out {
                old(self).spec_missed() + 1
            } else {
                old(self).spec_missed() as int
            },
            old(self).spec_timeout_ms() == 0 ==> timed_out,
            final(self).spec_heartbeats() == old(self).spec_heartbeats(),
            final(self).spec_interval_ms() == old(self).spec_interval_ms(),
            final(self).spec_timeout_ms() == old(self).spec_timeout_ms(),
    {
        let e = elapsed_nanos(&self.last_heartbeat);
        self.check_timeout_after(e)
    }

    /// Time since the last heartbeat.
    pub fn time_since_heartbeat(&self) -> (d: Duration) {
        elapsed_since(&self.last_heartbeat)
    }

    /// The heartbeat interval.
    pub fn interval(&self) -> (d: Duration)
        ensures
            d == millis_as_duration(self.spec_interval_ms()),
    {
        duration_from_millis(self.heartbeat_interval_ms)
    }

    /// Heartbeats received (counting modulo 2^64).
    pub fn total_heartbeats(&self) -> (n: u64)
        ensures
            n == self.spec_heartbeats(),
    {
        self.heartbeat_count
    }

    /// Consecutive missed heartbeats.
    pub fn missed_count(&self) -> (n: u64)
        ensures
            n == self.spec_missed(),
    {
        self.missed_count
    }
}

} // verus!
