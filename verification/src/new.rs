//! Convenience constructors that bind the engine to a backing of each growth
//! strategy.

use vstd::prelude::*;
use vstd::arithmetic::power2::*;
use crate::backing::{doubling_cumulative, Backing, Growth};
use crate::col::PinnedConcurrentCol;
use crate::mem_state::VecDropState;
use crate::state::ConcurrentState;

verus! {

impl<T, S: ConcurrentState<T>> PinnedConcurrentCol<T, S> {
    /// A new collection wrapping a fresh backing with doubling growth: four
    /// positions allocated at once, and thirty-two growth steps available
    /// before a reservation is needed.
    pub fn with_doubling_growth() -> (r: Self)
        requires
            usize::BITS == 64,
        ensures
            r.wf(),
            r@.len() == 4,
            r.spec_max() == doubling_cumulative(32),
            r.spec_growth() is Doubling,
            r.spec_drop_state() == VecDropState::ToBeDropped,
            !r.spec_state().fills() ==> forall|i: int| 0 <= i < r@.len() ==> r@[i] is None,
            r.spec_state().fills() ==> forall|i: int|
                0 <= i < r@.len() ==> r@[i] == Some(r.spec_state().fill_value()),
    {
        proof {
            lemma2_to64();
            lemma2_to64_rest();
        }
        let r = Self::new_from_pinned(Backing::with_doubling_growth(32));
        proof {
            r.lemma_view_is_backing_view();
        }
        r
    }

    /// A new collection wrapping a fresh backing with linear growth. Each
    /// growth step appends `2 ^ constant_fragment_capacity_exponent`
    /// positions, and `fragments_capacity` such steps set the maximum
    /// concurrent capacity, which a reservation can raise later.
    pub fn with_linear_growth(
        constant_fragment_capacity_exponent: usize,
        fragments_capacity: usize,
    ) -> (r: Self)
        requires
            1 <= constant_fragment_capacity_exponent < 32,
            1 <= fragments_capacity,
            fragments_capacity * pow2(constant_fragment_capacity_exponent as nat) <= usize::MAX,
        ensures
            r.wf(),
            r@.len() == pow2(constant_fragment_capacity_exponent as nat),
            r.spec_max() == fragments_capacity * pow2(constant_fragment_capacity_exponent as nat),
            r.spec_growth() == (Growth::Linear {
                fragment_capacity: pow2(constant_fragment_capacity_exponent as nat) as usize,
            }),
            r.spec_drop_state() == VecDropState::ToBeDropped,
            !r.spec_state().fills() ==> forall|i: int| 0 <= i < r@.len() ==> r@[i] is None,
            r.spec_state().fills() ==> forall|i: int|
                0 <= i < r@.len() ==> r@[i] == Some(r.spec_state().fill_value()),
    {
        let r = Self::new_from_pinned(
            Backing::with_linear_growth(constant_fragment_capacity_exponent, fragments_capacity),
        );
        proof {
            r.lemma_view_is_backing_view();
        }
        r
    }

    /// A new collection wrapping a fresh backing of exactly `fixed_capacity`
    /// positions that never grows: its maximum capacity is its allocation,
    /// and a write beyond it is refused outright.
    pub fn with_fixed_capacity(fixed_capacity: usize) -> (r: Self)
        ensures
            r.wf(),
            r@.len() == fixed_capacity,
            r.spec_max() == fixed_capacity,
            r.spec_growth() is Fixed,
            r.spec_drop_state() == VecDropState::ToBeDropped,
            !r.spec_state().fills() ==> forall|i: int| 0 <= i < r@.len() ==> r@[i] is None,
            r.spec_state().fills() ==> forall|i: int|
                0 <= i < r@.len() ==> r@[i] == Some(r.spec_state().fill_value()),
    {
        let r = Self::new_from_pinned(Backing::with_fixed_capacity(fixed_capacity));
        proof {
            r.lemma_view_is_backing_view();
        }
        r
    }
}

} // verus!
