//! Walking speed.

use vstd::prelude::*;

verus! {

/// An ingame speed, in thousandths of a unit per second.
#[derive(Debug, Clone, Copy, PartialEq)]
pub struct Speed(pub i64);

impl Speed {
    pub fn new(speed: i64) -> (s: Speed)
        ensures
            s.0 == speed,
    {
        Speed(speed)
    }
}

} // verus!
