//! The admission limiter: a counting gate shared by all units of work.

use vstd::prelude::*;

verus! {

/// A counting resource with a fixed number of slots.
///
/// Every unit of work takes one slot before it starts and gives it back when
/// it ends. The number of slots held never exceeds the capacity.
#[derive(Debug)]
pub struct AdmissionLimiter {
    capacity: usize,
    held: usize,
}

impl AdmissionLimiter {
    #[verifier::type_invariant]
    spec fn slots_bounded(self) -> bool {
        1 <= self.capacity && self.held <= self.capacity
    }

    /// The number of slots.
    pub closed spec fn capacity(&self) -> nat {
        self.capacity as nat
    }

    /// The number of slots that are held now.
    pub closed spec fn held(&self) -> nat {
        self.held as nat
    }

    /// A limiter with `capacity` slots, none of them held.
    pub fn new(capacity: usize) -> (limiter: AdmissionLimiter)
        requires
            capacity >= 1,
        ensures
            limiter.capacity() == capacity,
            limiter.held() == 0,
    {
        AdmissionLimiter { capacity, held: 0 }
    }

    /// Takes a slot if one is free, and says whether it did.
    pub fn try_acquire(&mut self) -> (admitted: bool)
        ensures
            final(self).capacity() == old(self).capacity(),
            admitted == (old(self).held() < old(self).capacity()),
            admitted ==> final(self).held() == old(self).held() + 1,
            !admitted ==> final(self).held() == old(self).held(),
            final(self).held() <= final(self).capacity(),
    {
        proof {
            use_type_invariant(&*self);
        }
        if self.held < self.capacity {
            self.held = self.held + 1;
            true
        } else {
            false
        }
    }

    /// Gives a slot back, and says whether one was held.
    pub fn release(&mut self) -> (released: bool)
        ensures
            final(self).capacity() == old(self).capacity(),
            released == (old(self).held() >= 1),
            released ==> final(self).held() == old(self).held() - 1,
            !released ==> final(self).held() == old(self).held(),
            final(self).held() <= final(self).capacity(),
    {
        proof {
            use_type_invariant(&*self);
        }
        if self.held >= 1 {
            self.held = self.held - 1;
            true
        } else {
            false
        }
    }

    /// The number of slots.
    pub fn slots(&self) -> (n: usize)
        ensures
            n == self.capacity(),
            n >= 1,
    {
        proof {
            use_type_invariant(self);
        }
        self.capacity
    }

    /// The number of slots that are held now. It never exceeds the number
    /// of slots.
    pub fn in_use(&self) -> (n: usize)
        ensures
            n == self.held(),
            n <= self.capacity(),
    {
        proof {
            use_type_invariant(self);
        }
        self.held
    }
}

} // verus!
