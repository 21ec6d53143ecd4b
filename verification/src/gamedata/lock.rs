//! Lock-registry entries.

use crate::gamedata::various::Time;
use vstd::prelude::*;

verus! {

/// A registry entry pairing a latch with the condition that will set it.
/// The first field of each variant is the identity of the latch in the
/// scene's latch store.
#[derive(Debug)]
pub enum Lock {
    /// Set the latch once the remaining time has been spent.
    Wait(usize, Time),
    /// Set the latch once the watched character's movement completes.
    WaitMove(usize, String),
}

/// Mathematical image of a [`Lock`].
pub enum LockModel {
    Wait { latch: usize, remaining: Time },
    WaitMove { latch: usize, chara: Seq<char> },
}

impl LockModel {
    /// The latch this entry will set.
    pub open spec fn latch(self) -> usize {
        match self {
            LockModel::Wait { latch, .. } => latch,
            LockModel::WaitMove { latch, .. } => latch,
        }
    }
}

impl View for Lock {
    type V = LockModel;

    open spec fn view(&self) -> LockModel {
        match self {
            Lock::Wait(latch, remaining) => LockModel::Wait {
                latch: *latch,
                remaining: *remaining,
            },
            Lock::WaitMove(latch, chara) => LockModel::WaitMove { latch: *latch, chara: chara@ },
        }
    }
}

impl Clone for Lock {
    fn clone(&self) -> (l: Lock)
        ensures
            l == *self,
    {
        match self {
            Lock::Wait(latch, remaining) => Lock::Wait(*latch, *remaining),
            Lock::WaitMove(latch, chara) => Lock::WaitMove(*latch, chara.clone()),
        }
    }
}

} // verus!
