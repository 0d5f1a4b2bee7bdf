//! The engine: a core data structure for high-performance concurrent
//! collections over a pinned backing vector.
//!
//! The engine owns exactly one backing vector and one policy value. A write
//! request is judged by the policy's permit: granted at once within the
//! allocated capacity, granted after this caller itself grows the backing
//! when the request stands at the frontier, and told to wait when the request
//! lies beyond it. The engine does not track which positions are written;
//! operations whose safety needs that knowledge state it as a precondition,
//! which the wrapper supplying the policy discharges.

use vstd::prelude::*;
use vstd::pervasive::cloned;
use vstd::pervasive::unreached;
use vstd::slice::slice_subrange;
use crate::backing::{grown_capacity, reserved_max_capacity, Backing, Growth};
use crate::mem_state::VecDropState;
use crate::state::ConcurrentState;
use crate::write_permit::WritePermit;

verus! {

/// What extraction returns: a backing whose length is the stated one, whose
/// leading `stated_len` cells carry the collection's cells unchanged, whose
/// remaining positions stand uninitialized, and whose growth configuration
/// and maximum concurrent capacity are the collection's own.
pub open spec fn extract_of<T>(
    cells: Seq<Option<T>>,
    growth: Growth,
    maximum_capacity: nat,
    stated_len: nat,
    r: Backing<T>,
) -> bool {
    &&& r.pinned_len == stated_len
    &&& r@.len() == cells.len()
    &&& (forall|i: int| 0 <= i < stated_len ==> r@[i] == cells[i])
    &&& (forall|i: int| stated_len <= i < r@.len() ==> r@[i] is None)
    &&& r.growth == growth
    &&& r.maximum_capacity == maximum_capacity
}

/// Round trip. Wrapping a pinned vector without a filler leaves its cells
/// exactly as they are, so a backing extracted from the fresh collection at
/// the vector's own length is the vector again: same cells, same length, same
/// growth configuration, same maximum capacity. This holds for every backing
/// whose positions past its length are unwritten, as they are in any vector
/// built by pushes.
pub proof fn lemma_wrap_extract_round_trip<T>(b: Backing<T>, r: Backing<T>)
    requires
        forall|i: int| b.pinned_len <= i < b@.len() ==> b@[i] is None,
        extract_of(b@, b.growth, b.maximum_capacity as nat, b.pinned_len as nat, r),
    ensures
        r@ =~= b@,
        r.pinned_len == b.pinned_len,
        r.growth == b.growth,
        r.maximum_capacity == b.maximum_capacity,
{
}

/// A core data structure with a focus to enable high performance, possibly
/// lock-free, concurrent collections using a pinned vector as the underlying
/// storage.
///
/// Pinned vectors grow while keeping the already pushed elements pinned to
/// their memory locations, which allows the following concurrency model.
///
/// * Writing to distinct positions needs no mutual exclusion; the engine
///   itself does not police races on one position, and states as
///   preconditions what the wrapper must rule out.
/// * Only one growth can happen at a time: the policy elects exactly the
///   caller standing at the frontier.
/// * Writes to positions already within capacity are never blocked by a
///   growth.
#[derive(Debug)]
pub struct PinnedConcurrentCol<T, S: ConcurrentState<T>> {
    backing: Backing<T>,
    state: S,
    vec_drop_state: VecDropState,
    has_filler: bool,
}

impl<T, S: ConcurrentState<T>> View for PinnedConcurrentCol<T, S> {
    type V = Seq<Option<T>>;

    closed spec fn view(&self) -> Seq<Option<T>> {
        self.backing@
    }
}

impl<T, S: ConcurrentState<T>> PinnedConcurrentCol<T, S> {
    /// The backing pinned vector, whole: its cells are this collection's
    /// view.
    pub closed spec fn spec_backing(self) -> Backing<T> {
        self.backing
    }

    /// The policy value.
    pub closed spec fn spec_state(self) -> S {
        self.state
    }

    /// The maximum concurrent capacity.
    pub closed spec fn spec_max(self) -> nat {
        self.backing.maximum_capacity as nat
    }

    /// The growth strategy of the backing.
    pub closed spec fn spec_growth(self) -> Growth {
        self.backing.growth
    }

    /// Whether the engine still owns its backing's elements or extraction has
    /// taken them out.
    pub closed spec fn spec_drop_state(self) -> VecDropState {
        self.vec_drop_state
    }

    /// What the engine maintains: a well-formed backing, a cached filler
    /// choice that agrees with the policy's stable one, and, where the policy
    /// fills, no allocated position left uninitialized.
    pub closed spec fn wf(self) -> bool {
        &&& self.backing.wf()
        &&& self.has_filler == self.state.fills()
        &&& (self.state.fills() ==> forall|i: int|
            0 <= i < self.backing@.len() ==> (#[trigger] self.backing@[i]) is Some)
    }

    /// The collection's view is its backing's view.
    pub proof fn lemma_view_is_backing_view(self)
        ensures
            self@ == self.spec_backing()@,
    {
    }

    /// The allocated capacity never exceeds the maximum concurrent capacity.
    pub proof fn lemma_capacity_within_maximum(self)
        requires
            self.wf(),
        ensures
            self@.len() <= self.spec_max(),
    {
    }

    /// Wraps the pinned vector and converts it into a pinned concurrent
    /// collection: the policy is derived from the vector, and, where the
    /// policy fills, every allocated position past the vector's length is
    /// filled at once and the length advances over it. Capacity and maximum
    /// capacity are the vector's own. Where the policy does not fill, the
    /// backing is taken over exactly as it is.
    pub fn new_from_pinned(pinned_vec: Backing<T>) -> (r: Self)
        requires
            pinned_vec.wf(),
            forall|i: int| 0 <= i < pinned_vec.pinned_len ==> pinned_vec@[i] is Some,
        ensures
            r.wf(),
            r@.len() == pinned_vec@.len(),
            r.spec_max() == pinned_vec.maximum_capacity,
            r.spec_growth() == pinned_vec.growth,
            forall|i: int| 0 <= i < pinned_vec.pinned_len ==> r@[i] == pinned_vec@[i],
            r.spec_drop_state() == VecDropState::ToBeDropped,
            !r.spec_state().fills() ==> r.spec_backing() == pinned_vec,
            r.spec_state().fills() ==> {
                &&& (forall|i: int|
                    pinned_vec.pinned_len <= i < r@.len() ==> r@[i] == Some(
                        r.spec_state().fill_value(),
                    ))
                &&& r.spec_backing().pinned_len == r@.len()
            },
    {
        let state = S::new_for_pinned_vec(&pinned_vec);
        let filler = state.fill_memory_with();
        let mut backing = pinned_vec;
        if filler.is_some() {
            let capacity = backing.capacity();
            let mut i: usize = backing.len();
            while i < capacity
                invariant
                    state.fills(),
                    i <= capacity,
                    capacity == backing@.len(),
                    backing@.len() == pinned_vec@.len(),
                    pinned_vec.pinned_len <= i,
                    backing.wf(),
                    backing.pinned_len == pinned_vec.pinned_len,
                    backing.growth == pinned_vec.growth,
                    backing.maximum_capacity == pinned_vec.maximum_capacity,
                    forall|j: int| 0 <= j < pinned_vec.pinned_len ==> backing@[j] == pinned_vec@[j],
                    forall|j: int|
                        pinned_vec.pinned_len <= j < i ==> backing@[j] == Some(state.fill_value()),
                decreases capacity - i,
            {
                let value = state.fill_memory_with();
                match value {
                    Some(value) => {
                        backing.set_cell(i, value);
                    },
                    None => {
                        // a filling policy never answers without a value
                        proof {
                            assert(false);
                        }
                    },
                }
                i = i + 1;
            }
            backing.set_len(capacity);
            PinnedConcurrentCol {
                backing,
                state,
                vec_drop_state: VecDropState::ToBeDropped,
                has_filler: true,
            }
        } else {
            PinnedConcurrentCol {
                backing,
                state,
                vec_drop_state: VecDropState::ToBeDropped,
                has_filler: false,
            }
        }
    }

    /// A reference to the current concurrent state of the collection.
    pub fn state(&self) -> (r: &S)
        ensures
            *r == self.spec_state(),
    {
        &self.state
    }

    /// The current allocated capacity of the collection.
    pub fn capacity(&self) -> (r: usize)
        ensures
            r == self@.len(),
        no_unwind
    {
        self.backing.capacity()
    }

    /// The maximum capacity that the collection can reach without
    /// [`PinnedConcurrentCol::reserve_maximum_capacity`]. It does not
    /// correspond to allocated memory.
    pub fn maximum_capacity(&self) -> (r: usize)
        ensures
            r == self.spec_max(),
    {
        self.backing.max_capacity()
    }

    /// Whether a write at `idx` is within the maximum concurrent capacity;
    /// writes past it are a programmer error that the wrapper must rule out
    /// by reserving capacity beforehand.
    pub fn has_capacity_for(&self, idx: usize) -> (r: bool)
        ensures
            r <==> idx < self.spec_max(),
    {
        idx < self.backing.max_capacity()
    }

    /// Fills the positions `[begin, end)` with the policy's filler, one value
    /// per position.
    fn fill_range(&mut self, begin: usize, end: usize)
        requires
            old(self).spec_state().fills(),
            begin <= end,
            end <= old(self)@.len(),
        ensures
            final(self)@.len() == old(self)@.len(),
            forall|i: int|
                begin <= i < end ==> final(self)@[i] == Some(old(self).spec_state().fill_value()),
            forall|i: int| 0 <= i < old(self)@.len() && !(begin <= i < end) ==> final(self)@[i]
                == old(self)@[i],
            final(self).spec_state() == old(self).spec_state(),
            final(self).spec_backing().pinned_len == old(self).spec_backing().pinned_len,
            final(self).spec_backing().growth == old(self).spec_backing().growth,
            final(self).spec_backing().fragments == old(self).spec_backing().fragments,
            final(self).spec_backing().max_fragments == old(self).spec_backing().max_fragments,
            final(self).spec_backing().maximum_capacity == old(
                self,
            ).spec_backing().maximum_capacity,
            final(self).has_filler == old(self).has_filler,
            final(self).vec_drop_state == old(self).vec_drop_state,
    {
        let mut i: usize = begin;
        while i < end
            invariant
                begin <= i <= end,
                end <= self@.len(),
                self.state == old(self).spec_state(),
                self.state.fills(),
                self@.len() == old(self)@.len(),
                forall|j: int|
                    begin <= j < i ==> self@[j] == Some(old(self).spec_state().fill_value()),
                forall|j: int| 0 <= j < self@.len() && !(begin <= j < end) ==> self@[j] == old(
                    self,
                )@[j],
                self.backing.pinned_len == old(self).spec_backing().pinned_len,
                self.backing.growth == old(self).spec_backing().growth,
                self.backing.fragments == old(self).spec_backing().fragments,
                self.backing.max_fragments == old(self).spec_backing().max_fragments,
                self.backing.maximum_capacity == old(self).spec_backing().maximum_capacity,
                self.has_filler == old(self).has_filler,
                self.vec_drop_state == old(self).vec_drop_state,
            decreases end - i,
        {
            let value = self.state.fill_memory_with();
            match value {
                Some(value) => {
                    self.backing.set_cell(i, value);
                },
                None => {
                    // a filling policy never answers without a value
                    proof {
                        assert(false);
                    }
                },
            }
            i = i + 1;
        }
    }

    /// Grows the backing to cover at least `new_capacity` positions, fills
    /// the new positions where the policy fills, and releases the growth
    /// handle. Entered only by the one caller that a `GrowThenWrite` permit
    /// elected. Growth is monotonic: capacity never shrinks, and whole growth
    /// steps are taken at a time.
    fn grow_to(&mut self, new_capacity: usize)
        requires
            old(self).wf(),
            new_capacity <= old(self).spec_max(),
        ensures
            final(self).wf(),
            final(self)@.len() == grown_capacity(
                old(self).spec_growth(),
                old(self)@.len() as nat,
                new_capacity as nat,
            ),
            final(self)@.len() >= new_capacity,
            final(self)@.len() >= old(self)@.len(),
            old(self)@.len() >= new_capacity ==> final(self)@ == old(self)@,
            forall|i: int| 0 <= i < old(self)@.len() ==> final(self)@[i] == old(self)@[i],
            forall|i: int|
                old(self)@.len() <= i < final(self)@.len() ==> final(self)@[i] == (
                if old(self).spec_state().fills() {
                    Some(old(self).spec_state().fill_value())
                } else {
                    Option::<T>::None
                }),
            final(self).spec_max() == old(self).spec_max(),
            final(self).spec_growth() == old(self).spec_growth(),
            final(self).spec_state() == old(self).spec_state(),
            final(self).spec_backing().pinned_len == old(self).spec_backing().pinned_len,
            final(self).has_filler == old(self).has_filler,
            final(self).vec_drop_state == old(self).vec_drop_state,
    {
        let before = self.backing.capacity();
        self.backing.grow_to(new_capacity);
        if self.has_filler {
            let after = self.backing.capacity();
            self.fill_range(before, after);
        }
        self.state.release_growth_handle();
    }

    /// Writes the value to the `idx`-th position, growing the backing first
    /// when the position stands exactly at the frontier.
    ///
    /// The engine does not rule out two callers writing to one position at
    /// the same time; the wrapper must. A single caller can only be served up
    /// to the frontier: past it, the permit would have it wait for a growth
    /// that no one else performs.
    pub fn write(&mut self, idx: usize, value: T)
        requires
            old(self).wf(),
            idx < old(self).spec_max(),
            idx <= old(self)@.len(),
        ensures
            final(self).wf(),
            idx < final(self)@.len(),
            final(self)@[idx as int] == Some(value),
            final(self)@.len() == grown_capacity(
                old(self).spec_growth(),
                old(self)@.len() as nat,
                (idx + 1) as nat,
            ),
            idx < old(self)@.len() ==> final(self)@.len() == old(self)@.len(),
            final(self)@.len() >= old(self)@.len(),
            forall|i: int|
                0 <= i < old(self)@.len() && i != idx ==> final(self)@[i] == old(self)@[i],
            forall|i: int|
                old(self)@.len() <= i < final(self)@.len() && i != idx ==> final(self)@[i] == (
                if old(self).spec_state().fills() {
                    Some(old(self).spec_state().fill_value())
                } else {
                    Option::<T>::None
                }),
            final(self).spec_max() == old(self).spec_max(),
            final(self).spec_growth() == old(self).spec_growth(),
            final(self).spec_state() == old(self).spec_state(),
            final(self).spec_backing().pinned_len == old(self).spec_backing().pinned_len,
            final(self).spec_drop_state() == old(self).spec_drop_state(),
    {
        loop
            invariant_except_break
                *self == *old(self),
            invariant
                old(self).wf(),
                idx < old(self).spec_max(),
                idx <= old(self)@.len(),
            ensures
                self.wf(),
                idx < self@.len(),
                self@[idx as int] == Some(value),
                self@.len() == grown_capacity(
                    old(self).spec_growth(),
                    old(self)@.len() as nat,
                    (idx + 1) as nat,
                ),
                idx < old(self)@.len() ==> self@.len() == old(self)@.len(),
                self@.len() >= old(self)@.len(),
                forall|i: int| 0 <= i < old(self)@.len() && i != idx ==> self@[i] == old(self)@[i],
                forall|i: int|
                    old(self)@.len() <= i < self@.len() && i != idx ==> self@[i] == (
                    if old(self).spec_state().fills() {
                        Some(old(self).spec_state().fill_value())
                    } else {
                        Option::<T>::None
                    }),
                self.spec_max() == old(self).spec_max(),
                self.spec_growth() == old(self).spec_growth(),
                self.spec_state() == old(self).spec_state(),
                self.spec_backing().pinned_len == old(self).spec_backing().pinned_len,
                self.spec_drop_state() == old(self).spec_drop_state(),
            decreases 0int,
        {
            let capacity = self.backing.capacity();
            let permit = self.state.write_permit(capacity, idx);
            match permit {
                WritePermit::JustWrite => {
                    self.backing.set_cell(idx, value);
                    self.state.update_after_write(idx, idx + 1);
                    break;
                },
                WritePermit::GrowThenWrite => {
                    self.grow_to(idx + 1);
                    self.backing.set_cell(idx, value);
                    self.state.update_after_write(idx, idx + 1);
                    break;
                },
                WritePermit::Spin => {
                    // a wait is only ever asked of requests beyond the
                    // frontier, which the precondition rules out
                    proof {
                        assert(false);
                    }
                },
            }
        }
    }

    /// Pours the first `num_items` of `values` into the allocated positions
    /// `[begin_idx, begin_idx + num_items)`, in order; excess values are
    /// discarded.
    fn write_n_items_at(&mut self, begin_idx: usize, num_items: usize, values: Vec<T>)
        requires
            begin_idx + num_items <= old(self)@.len(),
            num_items <= values@.len(),
        ensures
            final(self)@.len() == old(self)@.len(),
            forall|i: int|
                begin_idx <= i < begin_idx + num_items ==> final(self)@[i] == Some(
                    values@[i - begin_idx],
                ),
            forall|i: int|
                0 <= i < old(self)@.len() && !(begin_idx <= i < begin_idx + num_items)
                    ==> final(self)@[i] == old(self)@[i],
            final(self).spec_state() == old(self).spec_state(),
            final(self).spec_backing().pinned_len == old(self).spec_backing().pinned_len,
            final(self).spec_backing().growth == old(self).spec_backing().growth,
            final(self).spec_backing().fragments == old(self).spec_backing().fragments,
            final(self).spec_backing().max_fragments == old(self).spec_backing().max_fragments,
            final(self).spec_backing().maximum_capacity == old(
                self,
            ).spec_backing().maximum_capacity,
            final(self).has_filler == old(self).has_filler,
            final(self).vec_drop_state == old(self).vec_drop_state,
    {
        let mut remaining = values;
        let total = self.backing.capacity();
        let mut i: usize = 0;
        while i < num_items
            invariant
                i <= num_items,
                begin_idx + num_items <= total,
                total == self@.len(),
                begin_idx + num_items <= self@.len(),
                self@.len() == old(self)@.len(),
                num_items <= values@.len(),
                num_items - i <= remaining@.len(),
                remaining@ =~= values@.subrange(i as int, values@.len() as int),
                forall|j: int|
                    begin_idx <= j < begin_idx + i ==> self@[j] == Some(values@[j - begin_idx]),
                forall|j: int|
                    0 <= j < self@.len() && !(begin_idx <= j < begin_idx + num_items) ==> self@[j]
                        == old(self)@[j],
                self.state == old(self).spec_state(),
                self.backing.pinned_len == old(self).spec_backing().pinned_len,
                self.backing.growth == old(self).spec_backing().growth,
                self.backing.fragments == old(self).spec_backing().fragments,
                self.backing.max_fragments == old(self).spec_backing().max_fragments,
                self.backing.maximum_capacity == old(self).spec_backing().maximum_capacity,
                self.has_filler == old(self).has_filler,
                self.vec_drop_state == old(self).vec_drop_state,
            decreases num_items - i,
        {
            let value = remaining.remove(0);
            self.backing.set_cell(begin_idx + i, value);
            i = i + 1;
        }
    }

    /// Writes `num_items` leading values of `values` to the consecutive
    /// positions starting at `begin_idx`, growing the backing first when the
    /// range crosses the frontier; values past `num_items` are discarded.
    ///
    /// The engine does not rule out two callers writing to one position at
    /// the same time; the wrapper must. A single caller can only be served
    /// for a range that starts no later than the frontier: past it, the
    /// permit would have it wait for a growth that no one else performs.
    pub fn write_n_items(&mut self, begin_idx: usize, num_items: usize, values: Vec<T>)
        requires
            old(self).wf(),
            num_items > 0 ==> begin_idx + num_items - 1 < old(self).spec_max(),
            num_items > 0 ==> begin_idx <= old(self)@.len(),
            num_items <= values@.len(),
        ensures
            final(self).wf(),
            num_items == 0 ==> *final(self) == *old(self),
            num_items > 0 ==> final(self)@.len() == grown_capacity(
                old(self).spec_growth(),
                old(self)@.len() as nat,
                (begin_idx + num_items) as nat,
            ),
            num_items > 0 ==> begin_idx + num_items <= final(self)@.len(),
            final(self)@.len() >= old(self)@.len(),
            forall|i: int|
                begin_idx <= i < begin_idx + num_items ==> final(self)@[i] == Some(
                    values@[i - begin_idx],
                ),
            forall|i: int|
                0 <= i < old(self)@.len() && !(begin_idx <= i < begin_idx + num_items)
                    ==> final(self)@[i] == old(self)@[i],
            forall|i: int|
                old(self)@.len() <= i < final(self)@.len() && !(begin_idx <= i < begin_idx
                    + num_items) ==> final(self)@[i] == (
                if old(self).spec_state().fills() {
                    Some(old(self).spec_state().fill_value())
                } else {
                    Option::<T>::None
                }),
            final(self).spec_max() == old(self).spec_max(),
            final(self).spec_growth() == old(self).spec_growth(),
            final(self).spec_state() == old(self).spec_state(),
            final(self).spec_backing().pinned_len == old(self).spec_backing().pinned_len,
            final(self).spec_drop_state() == old(self).spec_drop_state(),
    {
        if num_items > 0 {
            let end_idx = begin_idx + num_items;
            loop
                invariant_except_break
                    *self == *old(self),
                invariant
                    old(self).wf(),
                    num_items > 0,
                    begin_idx + num_items - 1 < old(self).spec_max(),
                    begin_idx <= old(self)@.len(),
                    num_items <= values@.len(),
                    end_idx == begin_idx + num_items,
                ensures
                    self.wf(),
                    self@.len() == grown_capacity(
                        old(self).spec_growth(),
                        old(self)@.len() as nat,
                        (begin_idx + num_items) as nat,
                    ),
                    self@.len() >= old(self)@.len(),
                    begin_idx + num_items <= self@.len(),
                    forall|i: int|
                        begin_idx <= i < begin_idx + num_items ==> self@[i] == Some(
                            values@[i - begin_idx],
                        ),
                    forall|i: int|
                        0 <= i < old(self)@.len() && !(begin_idx <= i < begin_idx + num_items)
                            ==> self@[i] == old(self)@[i],
                    forall|i: int|
                        old(self)@.len() <= i < self@.len() && !(begin_idx <= i < begin_idx
                            + num_items) ==> self@[i] == (
                        if old(self).spec_state().fills() {
                            Some(old(self).spec_state().fill_value())
                        } else {
                            Option::<T>::None
                        }),
                    self.spec_max() == old(self).spec_max(),
                    self.spec_growth() == old(self).spec_growth(),
                    self.spec_state() == old(self).spec_state(),
                    self.spec_backing().pinned_len == old(self).spec_backing().pinned_len,
                    self.spec_drop_state() == old(self).spec_drop_state(),
                decreases 0int,
            {
                let capacity = self.backing.capacity();
                let permit = self.state.write_permit_n_items(capacity, begin_idx, num_items);
                match permit {
                    WritePermit::JustWrite => {
                        self.write_n_items_at(begin_idx, num_items, values);
                        self.state.update_after_write(begin_idx, end_idx);
                        break;
                    },
                    WritePermit::GrowThenWrite => {
                        self.grow_to(end_idx);
                        self.write_n_items_at(begin_idx, num_items, values);
                        self.state.update_after_write(begin_idx, end_idx);
                        break;
                    },
                    WritePermit::Spin => {
                        // a wait is only ever asked of requests beyond the
                        // frontier, which the precondition rules out
                        proof {
                            assert(false);
                        }
                    },
                }
            }
        }
    }

    /// Covers the `idx`-th position, growing at the frontier exactly as a
    /// write would, and hands out a reference to it; the caller takes over
    /// the writing. Without a filler the position must already be written,
    /// since the engine can hand out no reference to an uninitialized cell.
    pub fn single_item_as_ref(&mut self, idx: usize) -> (r: &T)
        requires
            old(self).wf(),
            idx < old(self).spec_max(),
            idx <= old(self)@.len(),
            !old(self).spec_state().fills() ==> idx < old(self)@.len() && old(self)@[
                idx as int] is Some,
        ensures
            final(self).wf(),
            idx < final(self)@.len(),
            final(self)@[idx as int] is Some,
            *r == final(self)@[idx as int]->0,
            idx < old(self)@.len() ==> final(self)@ == old(self)@,
            final(self)@.len() == grown_capacity(
                old(self).spec_growth(),
                old(self)@.len() as nat,
                (idx + 1) as nat,
            ),
            forall|i: int| 0 <= i < old(self)@.len() ==> final(self)@[i] == old(self)@[i],
            forall|i: int|
                old(self)@.len() <= i < final(self)@.len() ==> final(self)@[i] == Some(
                    old(self).spec_state().fill_value(),
                ),
            final(self).spec_max() == old(self).spec_max(),
            final(self).spec_growth() == old(self).spec_growth(),
            final(self).spec_state() == old(self).spec_state(),
            final(self).spec_backing().pinned_len == old(self).spec_backing().pinned_len,
            final(self).spec_drop_state() == old(self).spec_drop_state(),
    {
        let mut must_grow = false;
        loop
            invariant_except_break
                *self == *old(self),
                !must_grow,
            invariant
                old(self).wf(),
                idx < old(self).spec_max(),
                idx <= old(self)@.len(),
            ensures
                *self == *old(self),
                must_grow ==> idx == old(self)@.len(),
                !must_grow ==> idx < old(self)@.len(),
            decreases 0int,
        {
            let capacity = self.backing.capacity();
            let permit = self.state.write_permit(capacity, idx);
            match permit {
                WritePermit::JustWrite => {
                    break;
                },
                WritePermit::GrowThenWrite => {
                    must_grow = true;
                    break;
                },
                WritePermit::Spin => {
                    // a wait is only ever asked of requests beyond the
                    // frontier, which the precondition rules out
                    proof {
                        assert(false);
                    }
                },
            }
        }
        if must_grow {
            self.grow_to(idx + 1);
        }
        self.state.update_after_write(idx, idx + 1);
        let cell = self.backing.get(idx);
        match cell {
            Some(value) => value,
            None => {
                // the position was covered, and the precondition or the
                // filler has it written
                proof {
                    assert(false);
                }
                unreached()
            },
        }
    }

    /// Covers the positions `[begin_idx, begin_idx + num_items)`, growing at
    /// the frontier exactly as a write would, and hands the region out as one
    /// slice of cells for the caller to read; the collection keeps the cells
    /// as they are.
    pub fn n_items_buffer_as_slices(&mut self, begin_idx: usize, num_items: usize) -> (r: &[
        Option<T>])
        requires
            old(self).wf(),
            num_items > 0 ==> begin_idx + num_items - 1 < old(self).spec_max(),
            num_items > 0 ==> begin_idx <= old(self)@.len(),
        ensures
            final(self).wf(),
            r@.len() == num_items,
            num_items == 0 ==> *final(self) == *old(self),
            num_items > 0 ==> {
                &&& final(self)@.len() == grown_capacity(
                    old(self).spec_growth(),
                    old(self)@.len() as nat,
                    (begin_idx + num_items) as nat,
                )
                &&& begin_idx + num_items <= final(self)@.len()
                &&& r@ == final(self)@.subrange(
                    begin_idx as int,
                    begin_idx + num_items,
                )
            },
            final(self)@.len() >= old(self)@.len(),
            forall|i: int| 0 <= i < old(self)@.len() ==> final(self)@[i] == old(self)@[i],
            forall|i: int|
                old(self)@.len() <= i < final(self)@.len() ==> final(self)@[i] == (
                if old(self).spec_state().fills() {
                    Some(old(self).spec_state().fill_value())
                } else {
                    Option::<T>::None
                }),
            final(self).spec_max() == old(self).spec_max(),
            final(self).spec_growth() == old(self).spec_growth(),
            final(self).spec_state() == old(self).spec_state(),
            final(self).spec_backing().pinned_len == old(self).spec_backing().pinned_len,
            final(self).spec_drop_state() == old(self).spec_drop_state(),
    {
        if num_items == 0 {
            let cells = self.backing.cells_slice();
            slice_subrange(cells, 0, 0)
        } else {
            let end_idx = begin_idx + num_items;
            loop
                invariant_except_break
                    *self == *old(self),
                invariant
                    old(self).wf(),
                    num_items > 0,
                    begin_idx + num_items - 1 < old(self).spec_max(),
                    begin_idx <= old(self)@.len(),
                    end_idx == begin_idx + num_items,
                ensures
                    self.wf(),
                    self@.len() == grown_capacity(
                        old(self).spec_growth(),
                        old(self)@.len() as nat,
                        (begin_idx + num_items) as nat,
                    ),
                    self@.len() >= old(self)@.len(),
                    begin_idx + num_items <= self@.len(),
                    forall|i: int| 0 <= i < old(self)@.len() ==> self@[i] == old(self)@[i],
                    forall|i: int|
                        old(self)@.len() <= i < self@.len() ==> self@[i] == (
                        if old(self).spec_state().fills() {
                            Some(old(self).spec_state().fill_value())
                        } else {
                            Option::<T>::None
                        }),
                    self.spec_max() == old(self).spec_max(),
                    self.spec_growth() == old(self).spec_growth(),
                    self.spec_state() == old(self).spec_state(),
                    self.spec_backing().pinned_len == old(self).spec_backing().pinned_len,
                    self.spec_drop_state() == old(self).spec_drop_state(),
                decreases 0int,
            {
                let capacity = self.backing.capacity();
                let permit = self.state.write_permit_n_items(capacity, begin_idx, num_items);
                match permit {
                    WritePermit::JustWrite => {
                        self.state.update_after_write(begin_idx, end_idx);
                        break;
                    },
                    WritePermit::GrowThenWrite => {
                        self.grow_to(end_idx);
                        self.state.update_after_write(begin_idx, end_idx);
                        break;
                    },
                    WritePermit::Spin => {
                        // a wait is only ever asked of requests beyond the
                        // frontier, which the precondition rules out
                        proof {
                            assert(false);
                        }
                    },
                }
            }
            let cells = self.backing.cells_slice();
            slice_subrange(cells, begin_idx, end_idx)
        }
    }

    /// Covers the positions `[begin_idx, begin_idx + num_items)`, growing at
    /// the frontier exactly as a write would, and hands the region out as one
    /// mutable slice of cells; the caller is responsible for writing every
    /// position of the acquired region to leave no gap.
    pub fn n_items_buffer_as_mut_slices(&mut self, begin_idx: usize, num_items: usize) -> (r:
        &mut [Option<T>])
        requires
            old(self).wf(),
            num_items > 0 ==> begin_idx + num_items - 1 < old(self).spec_max(),
            num_items > 0 ==> begin_idx <= old(self)@.len(),
        ensures
            final(r)@.len() == num_items,
            r@.len() == num_items,
            num_items > 0 ==> {
                &&& final(self)@.len() == grown_capacity(
                    old(self).spec_growth(),
                    old(self)@.len() as nat,
                    (begin_idx + num_items) as nat,
                )
                &&& final(self)@.subrange(begin_idx as int, begin_idx + num_items) == final(r)@
            },
            num_items == 0 ==> final(self)@ =~= old(self)@,
            final(self)@.len() >= old(self)@.len(),
            begin_idx + num_items <= final(self)@.len() || num_items == 0,
            forall|i: int|
                begin_idx <= i < begin_idx + num_items ==> r@[i - begin_idx] == (
                if i < old(self)@.len() {
                    old(self)@[i]
                } else {
                    if old(self).spec_state().fills() {
                        Some(old(self).spec_state().fill_value())
                    } else {
                        Option::<T>::None
                    }
                }),
            forall|i: int|
                0 <= i < old(self)@.len() && !(begin_idx <= i < begin_idx + num_items)
                    ==> final(self)@[i] == old(self)@[i],
            forall|i: int|
                old(self)@.len() <= i < final(self)@.len() && !(begin_idx <= i < begin_idx
                    + num_items) ==> final(self)@[i] == (
                if old(self).spec_state().fills() {
                    Some(old(self).spec_state().fill_value())
                } else {
                    Option::<T>::None
                }),
            final(self).spec_max() == old(self).spec_max(),
            final(self).spec_growth() == old(self).spec_growth(),
            final(self).spec_state() == old(self).spec_state(),
            final(self).spec_backing().pinned_len == old(self).spec_backing().pinned_len,
            final(self).spec_drop_state() == old(self).spec_drop_state(),
            (old(self).spec_state().fills() ==> forall|i: int|
                0 <= i < num_items ==> (#[trigger] final(r)@[i]) is Some) ==> final(self).wf(),
    {
        if num_items == 0 {
            self.backing.slices_mut(0, 0)
        } else {
            let end_idx = begin_idx + num_items;
            loop
                invariant_except_break
                    *self == *old(self),
                invariant
                    old(self).wf(),
                    num_items > 0,
                    begin_idx + num_items - 1 < old(self).spec_max(),
                    begin_idx <= old(self)@.len(),
                    end_idx == begin_idx + num_items,
                ensures
                    self.wf(),
                    self@.len() == grown_capacity(
                        old(self).spec_growth(),
                        old(self)@.len() as nat,
                        (begin_idx + num_items) as nat,
                    ),
                    self@.len() >= old(self)@.len(),
                    begin_idx + num_items <= self@.len(),
                    forall|i: int| 0 <= i < old(self)@.len() ==> self@[i] == old(self)@[i],
                    forall|i: int|
                        old(self)@.len() <= i < self@.len() ==> self@[i] == (
                        if old(self).spec_state().fills() {
                            Some(old(self).spec_state().fill_value())
                        } else {
                            Option::<T>::None
                        }),
                    self.spec_max() == old(self).spec_max(),
                    self.spec_growth() == old(self).spec_growth(),
                    self.spec_state() == old(self).spec_state(),
                    self.spec_backing().pinned_len == old(self).spec_backing().pinned_len,
                    self.spec_drop_state() == old(self).spec_drop_state(),
                decreases 0int,
            {
                let capacity = self.backing.capacity();
                let permit = self.state.write_permit_n_items(capacity, begin_idx, num_items);
                match permit {
                    WritePermit::JustWrite => {
                        self.state.update_after_write(begin_idx, end_idx);
                        break;
                    },
                    WritePermit::GrowThenWrite => {
                        self.grow_to(end_idx);
                        self.state.update_after_write(begin_idx, end_idx);
                        break;
                    },
                    WritePermit::Spin => {
                        // a wait is only ever asked of requests beyond the
                        // frontier, which the precondition rules out
                        proof {
                            assert(false);
                        }
                    },
                }
            }
            self.backing.slices_mut(begin_idx, end_idx)
        }
    }

    /// The value written at position `index`: a reference to it if the
    /// position is allocated and written, `None` if the position is beyond
    /// the capacity or stands uninitialized.
    pub fn get(&self, index: usize) -> (r: Option<&T>)
        ensures
            r is Some <==> (index < self@.len() && self@[index as int] is Some),
            r matches Some(value) ==> self@[index as int] == Some(*value),
    {
        self.backing.get(index)
    }

    /// A mutable borrow of the cell at the allocated position `index`. The
    /// collection stays well-formed as long as a filling policy's cell is not
    /// emptied through it.
    pub fn get_mut(&mut self, index: usize) -> (r: &mut Option<T>)
        requires
            index < old(self)@.len(),
        ensures
            *r == old(self)@[index as int],
            final(self)@ == old(self)@.update(index as int, *final(r)),
            final(self).spec_max() == old(self).spec_max(),
            final(self).spec_growth() == old(self).spec_growth(),
            final(self).spec_state() == old(self).spec_state(),
            final(self).spec_backing().pinned_len == old(self).spec_backing().pinned_len,
            final(self).spec_drop_state() == old(self).spec_drop_state(),
            (old(self).wf() && (old(self).spec_state().fills() ==> (*final(r)) is Some))
                ==> final(self).wf(),
    {
        self.backing.get_mut(index)
    }

    /// References to the written values at the positions `[0, len)`, in
    /// order.
    pub fn iter(&self, len: usize) -> (r: Vec<&T>)
        requires
            len <= self@.len(),
            forall|i: int| 0 <= i < len ==> self@[i] is Some,
        ensures
            r@.len() == len,
            forall|i: int| 0 <= i < len ==> *r@[i] == self@[i]->0,
    {
        self.iter_over_range(0, len)
    }

    /// References to the written values at the positions `[begin, end)`, in
    /// order.
    pub fn iter_over_range(&self, begin: usize, end: usize) -> (r: Vec<&T>)
        requires
            begin <= end,
            end <= self@.len(),
            forall|i: int| begin <= i < end ==> self@[i] is Some,
        ensures
            r@.len() == end - begin,
            forall|i: int| begin <= i < end ==> *r@[i - begin] == self@[i]->0,
    {
        let mut result: Vec<&T> = Vec::new();
        let mut i: usize = begin;
        while i < end
            invariant
                begin <= i <= end,
                end <= self@.len(),
                forall|j: int| begin <= j < end ==> self@[j] is Some,
                result@.len() == i - begin,
                forall|j: int| begin <= j < i ==> *result@[j - begin] == self@[j]->0,
            decreases end - i,
        {
            let cell = self.backing.get(i);
            match cell {
                Some(value) => {
                    result.push(value);
                },
                None => {
                    // the precondition has every position of the range written
                    proof {
                        assert(false);
                    }
                },
            }
            i = i + 1;
        }
        result
    }

    /// The cells at the positions `[0, len)`, as one mutable slice; the cells
    /// past `len` keep their places and values. The collection stays
    /// well-formed as long as a filling policy's cells are not emptied
    /// through the slice.
    pub fn iter_mut(&mut self, len: usize) -> (r: &mut [Option<T>])
        requires
            len <= old(self)@.len(),
        ensures
            r@ == old(self)@.subrange(0, len as int),
            final(r)@.len() == len,
            final(self)@ == old(self)@.subrange(0, 0) + final(r)@ + old(self)@.subrange(
                len as int,
                old(self)@.len() as int,
            ),
            final(self).spec_max() == old(self).spec_max(),
            final(self).spec_growth() == old(self).spec_growth(),
            final(self).spec_state() == old(self).spec_state(),
            final(self).spec_backing().pinned_len == old(self).spec_backing().pinned_len,
            final(self).spec_drop_state() == old(self).spec_drop_state(),
            (old(self).wf() && (old(self).spec_state().fills() ==> forall|i: int|
                0 <= i < len ==> (#[trigger] final(r)@[i]) is Some)) ==> final(self).wf(),
    {
        self.backing.slices_mut(0, len)
    }

    /// Raises the maximum concurrent capacity to at least
    /// `new_maximum_capacity` and returns the new maximum, which may exceed
    /// the request; the maximum never shrinks. Only a fixed backing allocates
    /// here, and its fresh positions are filled where the policy fills.
    pub fn reserve_maximum_capacity(
        &mut self,
        _current_len: usize,
        new_maximum_capacity: usize,
    ) -> (r: usize)
        requires
            old(self).wf(),
            reserved_max_capacity(
                old(self).spec_growth(),
                old(self).spec_max(),
                new_maximum_capacity as nat,
            ) <= usize::MAX,
        ensures
            final(self).wf(),
            r == final(self).spec_max(),
            r == reserved_max_capacity(
                old(self).spec_growth(),
                old(self).spec_max(),
                new_maximum_capacity as nat,
            ),
            r >= new_maximum_capacity,
            r >= old(self).spec_max(),
            final(self)@.len() >= old(self)@.len(),
            forall|i: int| 0 <= i < old(self)@.len() ==> final(self)@[i] == old(self)@[i],
            forall|i: int|
                old(self)@.len() <= i < final(self)@.len() ==> final(self)@[i] == (
                if old(self).spec_state().fills() {
                    Some(old(self).spec_state().fill_value())
                } else {
                    Option::<T>::None
                }),
            final(self).spec_growth() == old(self).spec_growth(),
            final(self).spec_state() == old(self).spec_state(),
            final(self).spec_backing().pinned_len == old(self).spec_backing().pinned_len,
            final(self).spec_drop_state() == old(self).spec_drop_state(),
    {
        let before = self.backing.capacity();
        let r = self.backing.reserve_maximum_concurrent_capacity(new_maximum_capacity);
        if self.has_filler {
            let after = self.backing.capacity();
            self.fill_range(before, after);
        }
        r
    }

    /// Clears the collection: the first `prior_len` positions are destroyed
    /// as live elements, the backing returns to its initial capacity, and the
    /// policy is derived afresh from the cleared backing. Where the fresh
    /// policy fills, the initial capacity is filled at once.
    pub fn clear(&mut self, prior_len: usize)
        requires
            old(self).wf(),
            prior_len <= old(self)@.len(),
        ensures
            final(self).wf(),
            final(self)@.len() == old(self).spec_backing().initial_capacity(),
            final(self).spec_max() == old(self).spec_max(),
            final(self).spec_growth() == old(self).spec_growth(),
            !final(self).spec_state().fills() ==> forall|i: int|
                0 <= i < final(self)@.len() ==> final(self)@[i] is None,
            final(self).spec_state().fills() ==> forall|i: int|
                0 <= i < final(self)@.len() ==> final(self)@[i] == Some(
                    final(self).spec_state().fill_value(),
                ),
            final(self).spec_drop_state() == old(self).spec_drop_state(),
    {
        self.backing.clear(prior_len);
        let state = S::new_for_con_pinned_vec(&self.backing, 0);
        let filler = state.fill_memory_with();
        self.state = state;
        self.has_filler = filler.is_some();
        if self.has_filler {
            let capacity = self.backing.capacity();
            self.fill_range(0, capacity);
        }
    }

    /// Clones the backing with the stated length, which the caller vouches is
    /// a fully written prefix; fills the clone's tail where the fresh policy
    /// fills; and wraps the clone with a policy derived for it. The prefix
    /// carries clones of this collection's values, in the element type's own
    /// sense of a clone.
    pub fn clone_with_len(&self, pinned_vec_len: usize) -> (r: Self) where T: Clone
        requires
            self.wf(),
            pinned_vec_len <= self@.len(),
            forall|i: int| 0 <= i < pinned_vec_len ==> self@[i] is Some,
        ensures
            r.wf(),
            r.spec_max() == self.spec_max(),
            r.spec_growth() == self.spec_growth(),
            r@.len() == grown_capacity(
                self.spec_growth(),
                self.spec_backing().initial_capacity(),
                pinned_vec_len as nat,
            ),
            forall|i: int|
                0 <= i < pinned_vec_len ==> (#[trigger] r@[i]) is Some && cloned::<T>(
                    self@[i]->0,
                    r@[i]->0,
                ),
            forall|i: int|
                pinned_vec_len <= i < r@.len() ==> r@[i] == (
                if r.spec_state().fills() {
                    Some(r.spec_state().fill_value())
                } else {
                    Option::<T>::None
                }),
            r.spec_backing().pinned_len == pinned_vec_len,
            r.spec_drop_state() == VecDropState::ToBeDropped,
    {
        let backing = self.backing.clone_with_len(pinned_vec_len);
        let state = S::new_for_con_pinned_vec(&backing, pinned_vec_len);
        let filler = state.fill_memory_with();
        let has_filler = filler.is_some();
        let mut r = PinnedConcurrentCol {
            backing,
            state,
            vec_drop_state: VecDropState::ToBeDropped,
            has_filler,
        };
        if has_filler {
            let begin = pinned_vec_len;
            let end = r.backing.capacity();
            r.fill_range(begin, end);
        }
        r
    }

    /// Extracts the backing pinned vector with its length set to
    /// `pinned_vec_len`, which the caller vouches is a fully written prefix.
    /// The engine keeps a fresh husk of the same configuration, filled where
    /// the policy fills, so that its own drop releases nothing it no longer
    /// owns.
    pub fn into_inner(self, pinned_vec_len: usize) -> (r: Backing<T>)
        requires
            self.wf(),
            pinned_vec_len <= self@.len(),
            forall|i: int| 0 <= i < pinned_vec_len ==> self@[i] is Some,
        ensures
            r.wf(),
            extract_of(self@, self.spec_growth(), self.spec_max(), pinned_vec_len as nat, r),
    {
        let mut this = self;
        this.vec_drop_state = VecDropState::TakenOut;
        let mut taken = this.backing.pseudo_default();
        core::mem::swap(&mut this.backing, &mut taken);
        if this.has_filler {
            let capacity = this.backing.capacity();
            this.fill_range(0, capacity);
            this.backing.set_len(capacity);
        } else {
            this.backing.set_len(0);
        }
        taken.set_len(pinned_vec_len);
        taken
    }
}

impl<T, S: ConcurrentState<T>> Drop for PinnedConcurrentCol<T, S> {
    /// Settles the backing's length before its storage is released, so that
    /// destructors run over exactly the positions the engine can vouch for:
    /// the whole capacity where the policy fills every allocation; the
    /// gap-free prefix the policy answers with, clamped to the capacity — an
    /// answer that is best-effort, so possibly nothing at all; and nothing
    /// where the policy vouches for nothing. After an extraction only the
    /// husk is settled the same way. Cells past the settled length are
    /// released untracked, never destroyed.
    fn drop(&mut self)
        ensures
            final(self)@.len() == old(self)@.len(),
            final(self).spec_backing().pinned_len <= old(self)@.len(),
            forall|i: int|
                0 <= i < final(self).spec_backing().pinned_len
                    ==> final(self)@[i] == old(self)@[i],
            forall|i: int|
                final(self).spec_backing().pinned_len <= i < final(self)@.len()
                    ==> final(self)@[i] is None,
            final(self).spec_drop_state() == VecDropState::TakenOut,
            final(self).spec_state() == old(self).spec_state(),
            final(self).spec_max() == old(self).spec_max(),
            final(self).spec_growth() == old(self).spec_growth(),
            (old(self).wf() && old(self).spec_state().fills())
                ==> final(self).spec_backing().pinned_len == old(self)@.len(),
            (old(self).wf() && !old(self).spec_state().fills() && old(self).spec_drop_state()
                == VecDropState::ToBeDropped) ==> (final(self).spec_backing().pinned_len == 0
                || final(self).spec_backing().pinned_len == (
                match old(self).spec_state().no_gap_len() {
                    Some(no_gap_len) => if no_gap_len < old(self)@.len() {
                        no_gap_len as int
                    } else {
                        old(self)@.len() as int
                    },
                    None => 0int,
                })),
            (old(self).wf() && !old(self).spec_state().fills() && old(self).spec_drop_state()
                == VecDropState::TakenOut) ==> final(self).spec_backing().pinned_len == 0,
        opens_invariants none
        no_unwind
    {
        match self.vec_drop_state {
            VecDropState::ToBeDropped => {
                self.vec_drop_state = VecDropState::TakenOut;
                let capacity = self.backing.capacity();
                let len: usize = if self.has_filler {
                    capacity
                } else {
                    match self.state.try_get_no_gap_len() {
                        Some(no_gap_len) => if no_gap_len < capacity {
                            no_gap_len
                        } else {
                            capacity
                        },
                        None => 0,
                    }
                };
                self.backing.set_len(len);
            },
            VecDropState::TakenOut => {
                let capacity = self.backing.capacity();
                let len: usize = if self.has_filler {
                    capacity
                } else {
                    0
                };
                self.backing.set_len(len);
            },
        }
    }
}

} // verus!
