//! Lengths of time, to the nanosecond. Points in time are nanoseconds of a
//! running clock.
use vstd::prelude::*;

verus! {

#[derive(Clone, Copy, Debug, PartialEq, Eq, Structural)]
pub struct Duration {
    pub nanos: u128,
}

impl Duration {
    /// The whole seconds fit in 64 bits.
    pub open spec fn wf(&self) -> bool {
        self.nanos < 0x1_0000_0000_0000_0000 * 1_000_000_000
    }

    pub fn from_millis(millis: u64) -> (r: Self)
        ensures
            r.wf(),
            r.nanos == millis * 1_000_000,
            r.nanos == 1000 * (1000 * millis),
    {
        Duration { nanos: millis as u128 * 1_000_000 }
    }

    pub fn from_secs(secs: u64) -> (r: Self)
        ensures
            r.wf(),
            r.nanos == secs * 1_000_000_000,
            r.nanos == 1000 * (1000 * (1000 * secs)),
    {
        Duration { nanos: secs as u128 * 1_000_000_000 }
    }

    /// Whole milliseconds.
    pub fn as_millis(&self) -> (r: u128)
        ensures
            r == self.nanos / 1_000_000,
            1000 * (1000 * r) <= self.nanos < 1000 * (1000 * (r + 1)),
    {
        self.nanos / 1_000_000
    }

    /// Whole seconds.
    pub fn as_secs(&self) -> (r: u64)
        requires
            self.wf(),
        ensures
            r == self.nanos / 1_000_000_000,
            1000 * (1000 * (1000 * r)) <= self.nanos < 1000 * (1000 * (1000 * (r + 1))),
    {
        (self.nanos / 1_000_000_000) as u64
    }
}

} // verus!
