//! Points in time and spans of time as plain numbers. Clocks are read outside.

use vstd::prelude::*;

verus! {

/// Nanoseconds in one second.
pub const NANOS_PER_SEC: i128 = 1_000_000_000;

/// A point in time: seconds since the Unix epoch, negative before it, and the
/// nanoseconds after that second.
#[derive(Debug, Clone, Copy, PartialEq, Eq, Structural)]
pub struct FileTime {
    pub secs: i64,
    pub nanos: u32,
}

impl FileTime {
    /// Nanoseconds since the epoch.
    pub open spec fn at(self) -> int {
        self.secs * 1_000_000_000 + self.nanos
    }

    /// A whole number of seconds after the epoch.
    pub fn from_secs(secs: u32) -> (t: Self)
        ensures
            t == (FileTime { secs: secs as i64, nanos: 0 }),
    {
        FileTime { secs: secs as i64, nanos: 0 }
    }

    /// Nanoseconds since the epoch.
    pub fn unix_nanos(&self) -> (n: i128)
        ensures
            n == self.at(),
    {
        self.secs as i128 * NANOS_PER_SEC + self.nanos as i128
    }
}

/// A span of time.
#[derive(Debug, Clone, Copy, PartialEq, Eq, Structural)]
pub struct Duration {
    pub secs: u64,
    /// The part below a second.
    pub nanos: u32,
}

impl Duration {
    /// Less than a second is left over.
    pub open spec fn wf(self) -> bool {
        self.nanos < 1_000_000_000
    }

    /// The span in nanoseconds.
    pub open spec fn total_nanos(self) -> int {
        self.secs * 1_000_000_000 + self.nanos
    }

    /// The span in whole milliseconds.
    pub open spec fn total_millis(self) -> int {
        self.secs * 1000 + self.nanos as int / 1_000_000
    }

    /// No time at all.
    pub fn zero() -> (d: Self)
        ensures
            d == (Duration { secs: 0, nanos: 0 }),
    {
        Duration { secs: 0, nanos: 0 }
    }

    /// A whole number of seconds.
    pub fn from_secs(secs: u64) -> (d: Self)
        ensures
            d == (Duration { secs, nanos: 0 }),
    {
        Duration { secs, nanos: 0 }
    }

    /// A whole number of milliseconds.
    pub fn from_millis(millis: u64) -> (d: Self)
        ensures
            d.wf(),
            d.total_millis() == millis,
            d.total_nanos() == millis as int * 1_000_000,
    {
        Duration { secs: millis / 1000, nanos: (millis % 1000) as u32 * 1_000_000 }
    }

    /// The whole seconds.
    pub fn as_secs(&self) -> (n: u64)
        ensures
            n == self.secs,
    {
        self.secs
    }

    /// The milliseconds below a second.
    pub fn subsec_millis(&self) -> (n: u32)
        ensures
            n == self.nanos as int / 1_000_000,
    {
        self.nanos / 1_000_000
    }

    /// The whole milliseconds, at most `u64::MAX`.
    pub fn capped_millis(&self) -> (n: u64)
        ensures
            n == if self.total_millis() <= u64::MAX {
                self.total_millis()
            } else {
                u64::MAX as int
            },
    {
        let millis: u128 = self.secs as u128 * 1000 + (self.nanos / 1_000_000) as u128;
        if millis <= u64::MAX as u128 {
            millis as u64
        } else {
            u64::MAX
        }
    }

    /// Whether no time passed.
    pub fn is_zero(&self) -> (b: bool)
        ensures
            b == (self.total_nanos() == 0),
    {
        self.secs == 0 && self.nanos == 0
    }

    /// The time from `earlier` until now, or none where `earlier` is later.
    pub fn since(&self, earlier: Duration) -> (d: Duration)
        requires
            self.wf(),
            earlier.wf(),
        ensures
            d.wf(),
            d.total_nanos() == if self.total_nanos() >= earlier.total_nanos() {
                self.total_nanos() - earlier.total_nanos()
            } else {
                0
            },
    {
        if self.secs < earlier.secs || (self.secs == earlier.secs && self.nanos < earlier.nanos) {
            return Duration::zero();
        }
        if self.nanos >= earlier.nanos {
            Duration { secs: self.secs - earlier.secs, nanos: self.nanos - earlier.nanos }
        } else {
            Duration {
                secs: self.secs - earlier.secs - 1,
                nanos: 1_000_000_000 - (earlier.nanos - self.nanos),
            }
        }
    }
}

} // verus!
