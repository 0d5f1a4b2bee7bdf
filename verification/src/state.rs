//! The concurrent state of the collection: the policy that a wrapper
//! supplies to specialize the engine into a particular collection flavor.
//!
//! The policy owns every invariant that is specific to the flavor: whether
//! newly allocated positions are pre-filled, which write requests are granted
//! at once, who is elected to grow, and what bookkeeping follows a write. The
//! engine consults it through this interface alone.

use vstd::prelude::*;
use crate::backing::Backing;
use crate::write_permit::{permit_consistent, permit_consistent_n_items, WritePermit};

verus! {

/// Concurrent state of the collection.
///
/// The write-permit methods carry the protocol's central promise: a permit is
/// always consistent with the collection's capacity at the moment of the
/// decision ([`permit_consistent`]), so an immediate write never leaves
/// allocated memory, and only the caller standing exactly at the frontier is
/// ever elected to grow. A policy that grants `GrowThenWrite` must take its
/// growth handle within that same decision; the engine releases the handle
/// through [`ConcurrentState::release_growth_handle`] as soon as the growth
/// completes.
pub trait ConcurrentState<T>: Sized {
    /// Whether this policy has every newly allocated position filled
    /// immediately after allocation. The choice is fixed for the lifetime of
    /// a policy value.
    spec fn fills(&self) -> bool;

    /// The value with which newly allocated positions are filled, where the
    /// policy fills at all.
    spec fn fill_value(&self) -> T;

    /// One filler value, or `None` where new positions are to stay
    /// uninitialized. The engine calls this once per position it fills, and
    /// the policy answers stably: always `None`, or always the same value.
    fn fill_memory_with(&self) -> (r: Option<T>)
        ensures
            r is Some <==> self.fills(),
            r matches Some(value) ==> value == self.fill_value(),
    ;

    /// A fresh state for the given pinned vector, which is about to be
    /// wrapped by a [`PinnedConcurrentCol`].
    fn new_for_pinned_vec(pinned_vec: &Backing<T>) -> Self;

    /// A fresh state for a backing that is already concurrent and is known to
    /// hold `len` written leading elements; used by clear and by
    /// clone-with-length.
    fn new_for_con_pinned_vec(con_pinned_vec: &Backing<T>, len: usize) -> Self;

    /// The permit for a request to write to the `idx`-th position of a
    /// collection whose allocated capacity stands at `capacity`.
    ///
    /// When the permit is [`WritePermit::GrowThenWrite`], the caller is
    /// elected to grow, and a policy that needs a growth handle must take it
    /// within this same call, so that no second caller can be elected for the
    /// same frontier.
    fn write_permit(&self, capacity: usize, idx: usize) -> (permit: WritePermit)
        ensures
            permit_consistent(permit, idx as int, capacity as int),
    ;

    /// The permit for a request to write `num_items` values to the positions
    /// `[begin_idx, begin_idx + num_items)` of a collection whose allocated
    /// capacity stands at `capacity`. The contract grants an immediate write
    /// only when the whole range is allocated, elects the caller to grow when
    /// the range crosses the frontier, and asks only ranges that start
    /// strictly beyond it to wait.
    ///
    /// Deliberately, no provided body answers with the bare permit of the
    /// range's last position. For a range that crosses the frontier ending
    /// more than one position past it, that permit could only ask the caller
    /// to wait, and a sole writer would then wait forever for a growth that
    /// nobody performs; the contract here forbids that answer. A policy that
    /// wants to derive its range permit from [`ConcurrentState::write_permit`]
    /// asks it at the frontier itself for the crossing case, so that the
    /// growth handle is still taken within the decision.
    fn write_permit_n_items(
        &self,
        capacity: usize,
        begin_idx: usize,
        num_items: usize,
    ) -> (permit: WritePermit)
        requires
            1 <= num_items,
            begin_idx + num_items <= usize::MAX,
        ensures
            permit_consistent_n_items(
                permit,
                begin_idx as int,
                num_items as int,
                capacity as int,
            ),
    ;

    /// Releases the growth handle that a [`WritePermit::GrowThenWrite`]
    /// permit took; the engine calls this exactly once after each growth,
    /// whether or not the growth succeeded.
    fn release_growth_handle(&self);

    /// The bookkeeping hook that follows a write onto the positions
    /// `[begin_idx, end_idx)`; what it means is the wrapper's affair,
    /// typically the advance of a length counter.
    fn update_after_write(&self, begin_idx: usize, end_idx: usize);

    /// The gap-free written prefix that this policy vouches for, if any: the
    /// ghost counterpart of [`ConcurrentState::try_get_no_gap_len`]. A policy
    /// that tracks no such prefix keeps the conservative default; one whose
    /// answer can be a prefix overrides this alongside the answering method.
    open spec fn no_gap_len(&self) -> Option<usize> {
        None
    }

    /// A best-effort answer to "how long a gap-free written prefix can you
    /// vouch for?": `Some(k)` promises that the positions `[0, k)` are all
    /// written, `None` vouches for nothing. The answer is the prefix of
    /// [`ConcurrentState::no_gap_len`] or, being best-effort, conservatively
    /// nothing. Consulted only when the engine is dropped, to decide how far
    /// destructors may run; a policy that tracks no such prefix keeps the
    /// conservative default.
    fn try_get_no_gap_len(&self) -> (r: Option<usize>)
        ensures
            r == self.no_gap_len() || r is None,
        opens_invariants none
        no_unwind
    {
        None
    }
}

} // verus!
