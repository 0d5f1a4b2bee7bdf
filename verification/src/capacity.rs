//! A snapshot of the two capacities that the write protocol judges against:
//! the capacity already backed by allocated memory, and the maximum
//! concurrent capacity that growth alone may reach.

use vstd::prelude::*;
use crate::backing::Backing;

verus! {

/// The pair of capacities that a policy consults: the current allocated
/// capacity, which growth advances, and the maximum concurrent capacity,
/// which only an explicit reservation may raise.
#[derive(Debug)]
pub struct CapacityState {
    capacity: usize,
    maximum_capacity: usize,
}

impl CapacityState {
    /// The current allocated capacity.
    pub closed spec fn spec_current(self) -> nat {
        self.capacity as nat
    }

    /// The maximum concurrent capacity.
    pub closed spec fn spec_maximum(self) -> nat {
        self.maximum_capacity as nat
    }

    /// A snapshot of the given backing pinned vector's capacities.
    pub fn new_for_pinned_vec<T>(pinned_vec: &Backing<T>) -> (r: Self)
        ensures
            r.spec_current() == pinned_vec@.len(),
            r.spec_maximum() == pinned_vec.maximum_capacity,
    {
        CapacityState { capacity: pinned_vec.capacity(), maximum_capacity: pinned_vec.max_capacity() }
    }

    /// The current allocated capacity.
    pub fn current(&self) -> (r: usize)
        ensures
            r == self.spec_current(),
    {
        self.capacity
    }

    /// The maximum concurrent capacity.
    pub fn maximum(&self) -> (r: usize)
        ensures
            r == self.spec_maximum(),
    {
        self.maximum_capacity
    }

    /// Advances the capacity snapshot after a growth; capacity only grows.
    pub fn set_capacity(&mut self, new_capacity: usize)
        requires
            new_capacity > old(self).spec_current(),
        ensures
            final(self).spec_current() == new_capacity,
            final(self).spec_maximum() == old(self).spec_maximum(),
    {
        self.capacity = new_capacity;
    }

    /// Raises the maximum concurrent capacity after a reservation.
    pub fn set_max_capacity(&mut self, new_max_capacity: usize)
        ensures
            final(self).spec_current() == old(self).spec_current(),
            final(self).spec_maximum() == new_max_capacity,
    {
        self.maximum_capacity = new_max_capacity;
    }
}

} // verus!
