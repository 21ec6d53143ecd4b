//! Simulated time.

use vstd::prelude::*;

verus! {

/// A length of simulated time, in thousandths of a second.
#[derive(Debug, Clone, Copy, PartialEq)]
pub struct Time(pub i64);

impl Time {
    pub fn new(duration: i64) -> (t: Time)
        ensures
            t.0 == duration,
    {
        Time(duration)
    }

    /// The time contained by this structure, in thousandths of a second.
    pub fn get_time(self) -> (d: i64)
        ensures
            d == self.0,
    {
        self.0
    }

    /// Define the time contained by this structure, in thousandths of a
    /// second.
    pub fn set_time(&mut self, duration: i64)
        ensures
            final(self).0 == duration,
    {
        self.0 = duration;
    }

    /// `self - other`, used to burn time off a pending lock.
    pub fn minus(self, other: Time) -> (t: Time)
        requires
            i64::MIN <= self.0 - other.0 <= i64::MAX,
        ensures
            t.0 == self.0 - other.0,
    {
        Time(self.0 - other.0)
    }

    /// `self + other`, used to accumulate elapsed transition time.
    pub fn plus(self, other: Time) -> (t: Time)
        requires
            i64::MIN <= self.0 + other.0 <= i64::MAX,
        ensures
            t.0 == self.0 + other.0,
    {
        Time(self.0 + other.0)
    }
}

} // verus!
