//! One-shot boolean latches.
//!
//! A latch is a rendezvous flag: created unset, set exactly once by the
//! scene-side logic that resolves the condition it stands for, read
//! repeatedly and non-destructively by the scheduler. A latch never reverts
//! to unset. Latches live in a store and are referred to by the index at
//! which they were created; a lock-registry entry and a blocked task may hold
//! the same index, which models the shared ownership of one flag.

use vstd::prelude::*;

verus! {

pub struct LatchStore {
    flags: Vec<bool>,
}

impl View for LatchStore {
    type V = Seq<bool>;

    closed spec fn view(&self) -> Seq<bool> {
        self.flags@
    }
}

impl LatchStore {
    /// An empty store, with no latch yet.
    pub fn new() -> (s: LatchStore)
        ensures
            s@ == Seq::<bool>::empty(),
    {
        LatchStore { flags: Vec::new() }
    }

    /// How many latches have ever been created.
    pub fn len(&self) -> (n: usize)
        ensures
            n == self@.len(),
    {
        self.flags.len()
    }

    /// Create a fresh, unset latch and return its identity.
    pub fn new_latch(&mut self) -> (id: usize)
        ensures
            id == old(self)@.len(),
            final(self)@ == old(self)@.push(false),
    {
        let id = self.flags.len();
        self.flags.push(false);
        id
    }

    /// Read a latch without consuming it.
    pub fn is_set(&self, id: usize) -> (b: bool)
        requires
            id < self@.len(),
        ensures
            b == self@[id as int],
    {
        self.flags[id]
    }

    /// Set a latch. Setting an already-set latch is a no-op, so only the
    /// first call has an effect and the flag never reverts.
    pub fn set(&mut self, id: usize)
        requires
            id < old(self)@.len(),
        ensures
            final(self)@ == old(self)@.update(id as int, true),
    {
        let slot = &mut self.flags[id];
        *slot = true;
    }
}

} // verus!
