//! The counting permit limiter that bounds how many subtree walks of one
//! scan run at the same time. The bound is per scan, not process-wide.

use vstd::prelude::*;

verus! {

/// How many subtree walks one scan runs at once by default: a pragmatic
/// bound, not a hard constraint.
pub const DEFAULT_WALK_PERMITS: u32 = 4;

/// A counting semaphore model: a fixed capacity and the permits handed out.
#[derive(Clone, Copy, PartialEq, Eq, Structural, Debug)]
pub struct Limiter {
    pub capacity: u32,
    pub in_flight: u32,
}

impl Limiter {
    /// Validity: never more permits out than the capacity.
    pub open spec fn wf(&self) -> bool {
        self.in_flight <= self.capacity
    }

    /// A fresh limiter with all permits available.
    pub fn new(capacity: u32) -> (r: Limiter)
        ensures
            r == (Limiter { capacity, in_flight: 0 }),
            r.wf(),
    {
        Limiter { capacity, in_flight: 0 }
    }

    /// Takes a permit when one is free; refuses (and changes nothing) when
    /// the bound is reached.
    pub fn try_acquire(&mut self) -> (granted: bool)
        requires
            old(self).wf(),
        ensures
            final(self).wf(),
            granted == (old(self).in_flight < old(self).capacity),
            granted ==> *final(self) == (Limiter {
                capacity: old(self).capacity,
                in_flight: (old(self).in_flight + 1) as u32,
            }),
            !granted ==> *final(self) == *old(self),
    {
        if self.in_flight < self.capacity {
            self.in_flight = self.in_flight + 1;
            true
        } else {
            false
        }
    }

    /// Returns a permit.
    pub fn release(&mut self)
        requires
            old(self).wf(),
            old(self).in_flight > 0,
        ensures
            final(self).wf(),
            *final(self) == (Limiter {
                capacity: old(self).capacity,
                in_flight: (old(self).in_flight - 1) as u32,
            }),
    {
        self.in_flight = self.in_flight - 1;
    }
}

} // verus!
