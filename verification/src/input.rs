//! Per-cycle input.

use crate::gamedata::various::Time;
use vstd::prelude::*;

verus! {

/// What one simulation cycle is fed: the time elapsed since the previous
/// cycle.
#[derive(Debug, Clone, Copy, PartialEq)]
pub struct Input {
    pub time_elapsed: Time,
}

impl Input {
    pub fn new(time: Time) -> (i: Input)
        ensures
            i.time_elapsed == time,
    {
        Input { time_elapsed: time }
    }
}

impl Default for Input {
    fn default() -> (i: Input)
        ensures
            i.time_elapsed.0 == 0,
    {
        Input { time_elapsed: Time(0) }
    }
}

} // verus!
