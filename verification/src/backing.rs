//! The backing pinned vector of the collection, modelled as a sequence of
//! cells that each either hold a written value or stand uninitialized.
//!
//! A pinned vector owns a region of `capacity` positions and never moves a
//! written element: growth only appends positions. Three growth strategies
//! are offered. A doubling backing starts with four positions and each growth
//! step appends twice the positions of the last step; a linear backing
//! appends a constant number of positions per step; a fixed backing is
//! allocated once and never grows. Each strategy also fixes a maximum
//! concurrent capacity: the largest capacity reachable by growth steps alone,
//! which only an explicit reservation can raise.

use vstd::prelude::*;
use vstd::arithmetic::power2::*;
use vstd::pervasive::cloned;

verus! {

/// How a backing vector gains capacity, and hence which capacities it can
/// take.
#[derive(Debug, Clone, Copy)]
pub enum Growth {
    /// Growth starts from four positions and each step appends twice the
    /// positions of the previous step.
    Doubling,
    /// Every growth step appends `fragment_capacity` positions.
    Linear {
        /// The number of positions that each growth step appends.
        fragment_capacity: usize,
    },
    /// The backing is allocated once and never grows.
    Fixed,
}

/// Total capacity of a doubling backing after `fragments` growth steps:
/// 4 + 8 + ... + 4 * 2^(fragments - 1).
pub open spec fn doubling_cumulative(fragments: nat) -> nat {
    (4 * (pow2(fragments) - 1)) as nat
}

/// The capacity that one growth step reaches from `current`.
pub open spec fn next_capacity(growth: Growth, current: nat) -> nat {
    match growth {
        Growth::Doubling => 2 * current + 4,
        Growth::Linear { fragment_capacity } => current + fragment_capacity as nat,
        Growth::Fixed => current,
    }
}

/// The capacity that a backing of the given strategy reaches when it grows
/// step by step from `current` until `target` is covered; `current` itself if
/// it already is.
pub open spec fn grown_capacity(growth: Growth, current: nat, target: nat) -> nat
    decreases target - current,
        when current >= target || next_capacity(growth, current) > current
{
    if current >= target {
        current
    } else {
        let next = next_capacity(growth, current);
        if next >= target {
            next
        } else {
            grown_capacity(growth, next, target)
        }
    }
}

/// The maximum concurrent capacity that a reservation of `new_max` yields
/// when the maximum stands at `current_max`: a fixed backing is re-allocated
/// to exactly the requested bound, the growing strategies extend their
/// maximum whole growth steps at a time.
pub open spec fn reserved_max_capacity(growth: Growth, current_max: nat, new_max: nat) -> nat {
    match growth {
        Growth::Fixed => if new_max > current_max {
            new_max
        } else {
            current_max
        },
        _ => grown_capacity(growth, current_max, new_max),
    }
}

/// Cumulative doubling capacities grow with the number of growth steps.
pub proof fn lemma_doubling_cumulative_monotone(a: nat, b: nat)
    requires
        a <= b,
    ensures
        doubling_cumulative(a) <= doubling_cumulative(b),
{
    lemma_pow2_pos(a);
    lemma_pow2_pos(b);
    if a < b {
        lemma_pow2_strictly_increases(a, b);
    }
}

/// One doubling step from the cumulative capacity of `fragments` steps lands
/// exactly on the cumulative capacity of one step more.
pub proof fn lemma_doubling_cumulative_step(fragments: nat)
    ensures
        doubling_cumulative(fragments + 1) == 2 * doubling_cumulative(fragments) + 4,
{
    lemma_pow2_unfold(fragments + 1);
    lemma_pow2_pos(fragments);
}

/// Growing step by step until `target` is covered never stops short of
/// `target`, never shrinks, takes at least one step when one is needed, and
/// does nothing when `target` is already covered.
pub proof fn lemma_grown_capacity_bounds(growth: Growth, current: nat, target: nat)
    requires
        next_capacity(growth, current) > current || current >= target,
        growth is Doubling || growth is Linear,
    ensures
        grown_capacity(growth, current, target) >= target,
        grown_capacity(growth, current, target) >= current,
        current >= target ==> grown_capacity(growth, current, target) == current,
        current < target ==> grown_capacity(growth, current, target) >= next_capacity(
            growth,
            current,
        ),
    decreases target - current,
{
    if current < target {
        let next = next_capacity(growth, current);
        if next < target {
            lemma_grown_capacity_bounds(growth, next, target);
        }
    }
}

/// Two raised to a power always clears the exponent itself.
pub proof fn lemma_pow2_at_least(e: nat)
    ensures
        pow2(e) >= e + 1,
    decreases e,
{
    if e == 0 {
        lemma2_to64();
    } else {
        lemma_pow2_at_least((e - 1) as nat);
        lemma_pow2_unfold(e);
    }
}

/// Relies on `core::mem::forget`: consumes the value without running its
/// destructor and never unwinds. Used where the backing stops tracking a
/// cell's contents, as raw storage does when its length is cut.
#[verifier::external_body]
fn leak_value<T>(value: T)
    opens_invariants none
    no_unwind
{
    core::mem::forget(value);
}

/// Relies on `Vec::len`: the number of cells, read without touching them;
/// the read neither unwinds nor opens an invariant, so the drop path may ask.
#[verifier::external_body]
fn cell_count<T>(cells: &Vec<T>) -> (r: usize)
    ensures
        r == cells@.len(),
    opens_invariants none
    no_unwind
{
    cells.len()
}

/// Relies on `core::mem::replace`: puts `value` into the `index`-th cell and
/// hands back what the cell held; for an index in bounds it neither unwinds
/// nor opens an invariant, so the drop path may untrack cells through it.
#[verifier::external_body]
fn replace_cell<T>(cells: &mut Vec<T>, index: usize, value: T) -> (r: T)
    requires
        index < old(cells)@.len(),
    ensures
        final(cells)@ == old(cells)@.update(index as int, value),
        r == old(cells)@[index as int],
    opens_invariants none
    no_unwind
{
    core::mem::replace(&mut cells[index], value)
}

/// Relies on `Vec`'s mutable range indexing: one mutable slice over the
/// elements `[begin, end)`. The elements outside the range keep their places
/// and values, the slice's length is fixed, and whatever the caller writes
/// through the slice lands exactly in the range.
#[verifier::external_body]
fn cells_range_mut<T>(cells: &mut Vec<T>, begin: usize, end: usize) -> (r: &mut [T])
    requires
        begin <= end,
        end <= old(cells)@.len(),
    ensures
        r@ == old(cells)@.subrange(begin as int, end as int),
        final(r)@.len() == end - begin,
        final(cells)@ == old(cells)@.subrange(0, begin as int) + final(r)@ + old(cells)@.subrange(
            end as int,
            old(cells)@.len() as int,
        ),
{
    &mut cells[begin..end]
}

/// Appends uninitialized cells until the vector holds `upto` of them.
fn extend_none<T>(cells: &mut Vec<Option<T>>, upto: usize)
    requires
        old(cells)@.len() <= upto,
    ensures
        final(cells)@.len() == upto,
        forall|i: int| 0 <= i < old(cells)@.len() ==> final(cells)@[i] == old(cells)@[i],
        forall|i: int| old(cells)@.len() <= i < upto ==> final(cells)@[i] is None,
{
    while cells.len() < upto
        invariant
            old(cells)@.len() <= cells@.len() <= upto,
            forall|i: int| 0 <= i < old(cells)@.len() ==> cells@[i] == old(cells)@[i],
            forall|i: int| old(cells)@.len() <= i < cells@.len() ==> cells@[i] is None,
        decreases upto - cells@.len(),
    {
        cells.push(None);
    }
}

/// A vector of `n` uninitialized cells.
fn none_cells<T>(n: usize) -> (r: Vec<Option<T>>)
    ensures
        r@.len() == n,
        forall|i: int| 0 <= i < n ==> r@[i] is None,
{
    let mut cells: Vec<Option<T>> = Vec::new();
    let mut i: usize = 0;
    while i < n
        invariant
            i <= n,
            cells@.len() == i,
            forall|j: int| 0 <= j < i ==> cells@[j] is None,
        decreases n - i,
    {
        cells.push(None);
        i = i + 1;
    }
    cells
}

/// A backing pinned vector: `cells` are the allocated positions, of which the
/// first `pinned_len` count as the vector's own elements; the rest may be
/// written concurrently before the length ever acknowledges them.
#[derive(Debug)]
pub struct Backing<T> {
    /// The allocated positions; a cell holds `Some` once a value was written
    /// to it and `None` while it stands uninitialized.
    pub cells: Vec<Option<T>>,
    /// The vector's own length: how many leading positions it owns as
    /// elements.
    pub pinned_len: usize,
    /// The growth strategy.
    pub growth: Growth,
    /// How many growth steps the allocated capacity stands at.
    pub fragments: usize,
    /// The bound on growth steps; growth alone never exceeds it.
    pub max_fragments: usize,
    /// The maximum concurrent capacity: the largest capacity reachable
    /// without an explicit reservation.
    pub maximum_capacity: usize,
}

impl<T> View for Backing<T> {
    type V = Seq<Option<T>>;

    open spec fn view(&self) -> Seq<Option<T>> {
        self.cells@
    }
}

impl<T> Backing<T> {
    /// The shape every backing keeps: the length never exceeds the capacity,
    /// the capacity never exceeds the maximum, and capacity and maximum both
    /// lie on the strategy's growth steps.
    pub open spec fn wf(self) -> bool {
        &&& self.pinned_len <= self.cells@.len()
        &&& self.cells@.len() <= self.maximum_capacity
        &&& match self.growth {
            Growth::Doubling => {
                &&& 1 <= self.fragments <= self.max_fragments
                &&& self.cells@.len() == doubling_cumulative(self.fragments as nat)
                &&& self.maximum_capacity == doubling_cumulative(self.max_fragments as nat)
            },
            Growth::Linear { fragment_capacity } => {
                &&& 1 <= fragment_capacity
                &&& 1 <= self.fragments <= self.max_fragments
                &&& self.cells@.len() == self.fragments * fragment_capacity
                &&& self.maximum_capacity == self.max_fragments * fragment_capacity
            },
            Growth::Fixed => {
                &&& self.cells@.len() == self.maximum_capacity
            },
        }
    }

    /// The capacity a fresh backing of this configuration starts with, and
    /// the capacity a cleared backing returns to.
    pub open spec fn initial_capacity(self) -> nat {
        match self.growth {
            Growth::Doubling => 4,
            Growth::Linear { fragment_capacity } => fragment_capacity as nat,
            Growth::Fixed => self.maximum_capacity as nat,
        }
    }

    /// A backing with doubling growth: four positions are allocated at once,
    /// and up to `max_fragments` growth steps may follow, each appending
    /// twice the positions of the last.
    pub fn with_doubling_growth(max_fragments: usize) -> (r: Self)
        requires
            1 <= max_fragments,
            doubling_cumulative(max_fragments as nat) <= usize::MAX,
        ensures
            r.wf(),
            r.growth is Doubling,
            r@.len() == 4,
            r.pinned_len == 0,
            r.maximum_capacity == doubling_cumulative(max_fragments as nat),
            forall|i: int| 0 <= i < r@.len() ==> r@[i] is None,
    {
        let mut maximum: usize = 4;
        let mut f: usize = 1;
        proof {
            lemma2_to64();
        }
        while f < max_fragments
            invariant
                1 <= f <= max_fragments,
                maximum == doubling_cumulative(f as nat),
                doubling_cumulative(max_fragments as nat) <= usize::MAX,
            decreases max_fragments - f,
        {
            proof {
                lemma_doubling_cumulative_step(f as nat);
                lemma_doubling_cumulative_monotone(f as nat + 1, max_fragments as nat);
            }
            maximum = 2 * maximum + 4;
            f = f + 1;
        }
        proof {
            lemma2_to64();
            lemma_doubling_cumulative_monotone(1, max_fragments as nat);
        }
        Backing {
            cells: none_cells(4),
            pinned_len: 0,
            growth: Growth::Doubling,
            fragments: 1,
            max_fragments,
            maximum_capacity: maximum,
        }
    }

    /// A backing with linear growth: one fragment of `2 ^
    /// fragment_capacity_exponent` positions is allocated at once, and up to
    /// `max_fragments` growth steps may follow, each appending a fragment of
    /// the same size.
    pub fn with_linear_growth(fragment_capacity_exponent: usize, max_fragments: usize) -> (r: Self)
        requires
            1 <= fragment_capacity_exponent < 32,
            1 <= max_fragments,
            max_fragments * pow2(fragment_capacity_exponent as nat) <= usize::MAX,
        ensures
            r.wf(),
            r.growth == (Growth::Linear {
                fragment_capacity: pow2(fragment_capacity_exponent as nat) as usize,
            }),
            r@.len() == pow2(fragment_capacity_exponent as nat),
            r.pinned_len == 0,
            r.maximum_capacity == max_fragments * pow2(fragment_capacity_exponent as nat),
            forall|i: int| 0 <= i < r@.len() ==> r@[i] is None,
    {
        let mut fragment_capacity: usize = 1;
        let mut e: usize = 0;
        proof {
            lemma2_to64();
        }
        while e < fragment_capacity_exponent
            invariant
                e <= fragment_capacity_exponent,
                fragment_capacity == pow2(e as nat),
                1 <= max_fragments,
                max_fragments * pow2(fragment_capacity_exponent as nat) <= usize::MAX,
            decreases fragment_capacity_exponent - e,
        {
            proof {
                lemma_pow2_unfold(e as nat + 1);
                if e as nat + 1 < fragment_capacity_exponent as nat {
                    lemma_pow2_strictly_increases(e as nat + 1, fragment_capacity_exponent as nat);
                }
                assert(pow2(fragment_capacity_exponent as nat) <= max_fragments * pow2(
                    fragment_capacity_exponent as nat,
                )) by (nonlinear_arith)
                    requires
                        1 <= max_fragments,
                ;
            }
            fragment_capacity = 2 * fragment_capacity;
            e = e + 1;
        }
        proof {
            assert(pow2(fragment_capacity_exponent as nat) <= max_fragments * pow2(
                fragment_capacity_exponent as nat,
            )) by (nonlinear_arith)
                requires
                    1 <= max_fragments,
            ;
        }
        let maximum: usize = max_fragments * fragment_capacity;
        Backing {
            cells: none_cells(fragment_capacity),
            pinned_len: 0,
            growth: Growth::Linear { fragment_capacity },
            fragments: 1,
            max_fragments,
            maximum_capacity: maximum,
        }
    }

    /// A backing of exactly `capacity` positions that never grows.
    pub fn with_fixed_capacity(capacity: usize) -> (r: Self)
        ensures
            r.wf(),
            r.growth is Fixed,
            r@.len() == capacity,
            r.pinned_len == 0,
            r.maximum_capacity == capacity,
            forall|i: int| 0 <= i < r@.len() ==> r@[i] is None,
    {
        Backing {
            cells: none_cells(capacity),
            pinned_len: 0,
            growth: Growth::Fixed,
            fragments: 1,
            max_fragments: 1,
            maximum_capacity: capacity,
        }
    }

    /// The number of allocated positions.
    pub fn capacity(&self) -> (r: usize)
        ensures
            r == self@.len(),
        opens_invariants none
        no_unwind
    {
        cell_count(&self.cells)
    }

    /// The maximum concurrent capacity: the bound that growth alone never
    /// exceeds.
    pub fn max_capacity(&self) -> (r: usize)
        ensures
            r == self.maximum_capacity,
        no_unwind
    {
        self.maximum_capacity
    }

    /// The allocated cells, as one slice.
    pub fn cells_slice(&self) -> (r: &[Option<T>])
        ensures
            r@ == self@,
    {
        self.cells.as_slice()
    }

    /// The allocated cells `[begin, end)`, as one mutable slice; the cells
    /// outside the range keep their places and values.
    pub fn slices_mut(&mut self, begin: usize, end: usize) -> (r: &mut [Option<T>])
        requires
            begin <= end,
            end <= old(self)@.len(),
        ensures
            r@ == old(self)@.subrange(begin as int, end as int),
            final(r)@.len() == end - begin,
            final(self)@ == old(self)@.subrange(0, begin as int) + final(r)@
                + old(self)@.subrange(end as int, old(self)@.len() as int),
            final(self).pinned_len == old(self).pinned_len,
            final(self).growth == old(self).growth,
            final(self).fragments == old(self).fragments,
            final(self).max_fragments == old(self).max_fragments,
            final(self).maximum_capacity == old(self).maximum_capacity,
    {
        cells_range_mut(&mut self.cells, begin, end)
    }

    /// The vector's own length.
    pub fn len(&self) -> (r: usize)
        ensures
            r == self.pinned_len,
        no_unwind
    {
        self.pinned_len
    }

    /// Grows the allocated capacity, whole growth steps at a time, until it
    /// covers `target`; positions already allocated keep their contents and
    /// their places. Growth is monotonic: the capacity never shrinks, and a
    /// `target` already covered changes nothing.
    pub fn grow_to(&mut self, target: usize)
        requires
            old(self).wf(),
            target <= old(self).maximum_capacity,
        ensures
            final(self).wf(),
            final(self)@.len() == grown_capacity(
                old(self).growth,
                old(self)@.len() as nat,
                target as nat,
            ),
            final(self)@.len() >= target,
            final(self)@.len() >= old(self)@.len(),
            old(self)@.len() >= target ==> final(self)@ == old(self)@,
            forall|i: int| 0 <= i < old(self)@.len() ==> final(self)@[i] == old(self)@[i],
            forall|i: int| old(self)@.len() <= i < final(self)@.len() ==> final(self)@[i] is None,
            final(self).pinned_len == old(self).pinned_len,
            final(self).growth == old(self).growth,
            final(self).maximum_capacity == old(self).maximum_capacity,
            final(self).max_fragments == old(self).max_fragments,
    {
        while self.cells.len() < target
            invariant
                self.wf(),
                target <= self.maximum_capacity,
                self.growth == old(self).growth,
                self.maximum_capacity == old(self).maximum_capacity,
                self.max_fragments == old(self).max_fragments,
                self.pinned_len == old(self).pinned_len,
                old(self)@.len() <= self@.len(),
                old(self)@.len() >= target ==> self@ == old(self)@,
                forall|i: int| 0 <= i < old(self)@.len() ==> self@[i] == old(self)@[i],
                forall|i: int| old(self)@.len() <= i < self@.len() ==> self@[i] is None,
                grown_capacity(self.growth, self@.len() as nat, target as nat) == grown_capacity(
                    old(self).growth,
                    old(self)@.len() as nat,
                    target as nat,
                ),
            decreases self.max_fragments - self.fragments,
        {
            let current = self.cells.len();
            let next: usize = match self.growth {
                Growth::Doubling => {
                    proof {
                        if self.fragments >= self.max_fragments {
                            lemma_doubling_cumulative_monotone(
                                self.max_fragments as nat,
                                self.fragments as nat,
                            );
                        }
                        lemma_doubling_cumulative_step(self.fragments as nat);
                        lemma_doubling_cumulative_monotone(
                            self.fragments as nat + 1,
                            self.max_fragments as nat,
                        );
                    }
                    2 * current + 4
                },
                Growth::Linear { fragment_capacity } => {
                    proof {
                        let f = self.fragments as nat;
                        let mf = self.max_fragments as nat;
                        let fc = fragment_capacity as nat;
                        if f >= mf {
                            assert(f * fc >= mf * fc) by (nonlinear_arith)
                                requires
                                    f >= mf,
                                    fc >= 0,
                            ;
                        }
                        assert((f + 1) * fc == f * fc + fc) by (nonlinear_arith);
                        assert(f + 1 <= mf ==> (f + 1) * fc <= mf * fc) by (nonlinear_arith);
                    }
                    current + fragment_capacity
                },
                Growth::Fixed => {
                    proof {
                        assert(false);
                    }
                    current
                },
            };
            extend_none(&mut self.cells, next);
            self.fragments = self.fragments + 1;
        }
    }

    /// Writes `value` to the allocated position `index`. The cell's previous
    /// contents, if any, are released without running their destructor, as a
    /// raw store over possibly uninitialized storage leaves no room for one.
    pub fn set_cell(&mut self, index: usize, value: T)
        requires
            index < old(self)@.len(),
        ensures
            final(self)@ == old(self)@.update(index as int, Some(value)),
            final(self).pinned_len == old(self).pinned_len,
            final(self).growth == old(self).growth,
            final(self).fragments == old(self).fragments,
            final(self).max_fragments == old(self).max_fragments,
            final(self).maximum_capacity == old(self).maximum_capacity,
        no_unwind
    {
        let mut slot: Option<T> = Some(value);
        core::mem::swap(&mut self.cells[index], &mut slot);
        leak_value(slot);
    }

    /// Sets the vector's own length. Positions at or past the new length stop
    /// being tracked: their contents are released without running
    /// destructors, exactly as raw storage beyond a vector's length holds no
    /// live elements.
    pub fn set_len(&mut self, new_len: usize)
        requires
            new_len <= old(self)@.len(),
        ensures
            final(self).pinned_len == new_len,
            final(self)@.len() == old(self)@.len(),
            forall|i: int| 0 <= i < new_len ==> final(self)@[i] == old(self)@[i],
            forall|i: int| new_len <= i < final(self)@.len() ==> final(self)@[i] is None,
            final(self).growth == old(self).growth,
            final(self).fragments == old(self).fragments,
            final(self).max_fragments == old(self).max_fragments,
            final(self).maximum_capacity == old(self).maximum_capacity,
        opens_invariants none
        no_unwind
    {
        let n = cell_count(&self.cells);
        let mut i: usize = new_len;
        while i < n
            invariant
                new_len <= i <= n,
                n == self@.len(),
                self@.len() == old(self)@.len(),
                forall|j: int| 0 <= j < new_len ==> self@[j] == old(self)@[j],
                forall|j: int| new_len <= j < i ==> self@[j] is None,
                self.pinned_len == old(self).pinned_len,
                self.growth == old(self).growth,
                self.fragments == old(self).fragments,
                self.max_fragments == old(self).max_fragments,
                self.maximum_capacity == old(self).maximum_capacity,
            decreases n - i,
        {
            let untracked_value = replace_cell(&mut self.cells, i, None);
            leak_value(untracked_value);
            i = i + 1;
        }
        self.pinned_len = new_len;
    }

    /// The value written at position `index`: a reference to it if the
    /// position is allocated and written, `None` if the position is beyond
    /// the capacity or stands uninitialized.
    pub fn get(&self, index: usize) -> (r: Option<&T>)
        ensures
            r is Some <==> (index < self@.len() && self@[index as int] is Some),
            r matches Some(v) ==> self@[index as int] == Some(*v),
    {
        if index < self.cells.len() {
            self.cells[index].as_ref()
        } else {
            None
        }
    }

    /// A mutable borrow of the cell at the allocated position `index`.
    pub fn get_mut(&mut self, index: usize) -> (r: &mut Option<T>)
        requires
            index < old(self)@.len(),
        ensures
            *r == old(self)@[index as int],
            final(self)@ == old(self)@.update(index as int, *final(r)),
            final(self).pinned_len == old(self).pinned_len,
            final(self).growth == old(self).growth,
            final(self).fragments == old(self).fragments,
            final(self).max_fragments == old(self).max_fragments,
            final(self).maximum_capacity == old(self).maximum_capacity,
    {
        &mut self.cells[index]
    }

    /// Appends `value` as the next element, growing the allocated capacity by
    /// one step when the length has reached it.
    pub fn push(&mut self, value: T)
        requires
            old(self).wf(),
            old(self).pinned_len < old(self).maximum_capacity,
        ensures
            final(self).wf(),
            final(self).pinned_len == old(self).pinned_len + 1,
            final(self)@.len() == grown_capacity(
                old(self).growth,
                old(self)@.len() as nat,
                (old(self).pinned_len + 1) as nat,
            ),
            final(self)@[old(self).pinned_len as int] == Some(value),
            forall|i: int|
                0 <= i < old(self)@.len() && i != old(self).pinned_len
                    ==> final(self)@[i] == old(self)@[i],
            forall|i: int|
                old(self)@.len() <= i < final(self)@.len() && i != old(self).pinned_len
                    ==> final(self)@[i] is None,
            final(self).growth == old(self).growth,
            final(self).maximum_capacity == old(self).maximum_capacity,
            final(self).max_fragments == old(self).max_fragments,
    {
        if self.pinned_len == self.cells.len() {
            let target = self.pinned_len + 1;
            self.grow_to(target);
        }
        let index = self.pinned_len;
        self.set_cell(index, value);
        self.pinned_len = index + 1;
    }

    /// Clears the vector: the first `prior_len` positions are destroyed as
    /// live elements, everything beyond them is released untracked, and the
    /// backing returns to its initial capacity with every position
    /// uninitialized. The growth configuration and the maximum concurrent
    /// capacity stay as they were.
    pub fn clear(&mut self, prior_len: usize)
        requires
            old(self).wf(),
            prior_len <= old(self)@.len(),
        ensures
            final(self).wf(),
            final(self).pinned_len == 0,
            final(self)@.len() == old(self).initial_capacity(),
            forall|i: int| 0 <= i < final(self)@.len() ==> final(self)@[i] is None,
            final(self).growth == old(self).growth,
            final(self).max_fragments == old(self).max_fragments,
            final(self).maximum_capacity == old(self).maximum_capacity,
    {
        self.set_len(prior_len);
        let initial: usize = match self.growth {
            Growth::Doubling => 4,
            Growth::Linear { fragment_capacity } => fragment_capacity,
            Growth::Fixed => self.maximum_capacity,
        };
        proof {
            lemma2_to64();
            match self.growth {
                Growth::Doubling => {
                    lemma_doubling_cumulative_monotone(1, self.max_fragments as nat);
                },
                Growth::Linear { fragment_capacity } => {
                    assert(1 * fragment_capacity <= self.max_fragments * fragment_capacity)
                        by (nonlinear_arith)
                        requires
                            1 <= self.max_fragments,
                            0 <= fragment_capacity,
                    ;
                },
                Growth::Fixed => {},
            }
        }
        self.cells = none_cells(initial);
        self.fragments = 1;
        self.pinned_len = 0;
    }

    /// Raises the maximum concurrent capacity to at least
    /// `new_maximum_capacity` and returns the new maximum, which may exceed
    /// the request: the growing strategies extend their bound whole growth
    /// steps at a time, a fixed backing re-allocates to the requested bound.
    /// The maximum never shrinks. Only a fixed backing changes its allocated
    /// capacity here, and its positions keep their contents and their places.
    pub fn reserve_maximum_concurrent_capacity(&mut self, new_maximum_capacity: usize) -> (r: usize)
        requires
            old(self).wf(),
            reserved_max_capacity(
                old(self).growth,
                old(self).maximum_capacity as nat,
                new_maximum_capacity as nat,
            ) <= usize::MAX,
        ensures
            final(self).wf(),
            r == final(self).maximum_capacity,
            r == reserved_max_capacity(
                old(self).growth,
                old(self).maximum_capacity as nat,
                new_maximum_capacity as nat,
            ),
            r >= new_maximum_capacity,
            r >= old(self).maximum_capacity,
            final(self).growth == old(self).growth,
            final(self).pinned_len == old(self).pinned_len,
            final(self)@.len() >= old(self)@.len(),
            forall|i: int| 0 <= i < old(self)@.len() ==> final(self)@[i] == old(self)@[i],
            forall|i: int| old(self)@.len() <= i < final(self)@.len() ==> final(self)@[i] is None,
            old(self).growth is Fixed ==> final(self)@.len() == r,
            !(old(self).growth is Fixed) ==> final(self)@ == old(self)@,
    {
        match self.growth {
            Growth::Fixed => {
                if new_maximum_capacity > self.cells.len() {
                    extend_none(&mut self.cells, new_maximum_capacity);
                    self.maximum_capacity = new_maximum_capacity;
                }
                self.maximum_capacity
            },
            Growth::Doubling => {
                proof {
                    lemma_grown_capacity_bounds(
                        self.growth,
                        self.maximum_capacity as nat,
                        new_maximum_capacity as nat,
                    );
                }
                while self.maximum_capacity < new_maximum_capacity
                    invariant
                        self.wf(),
                        self.growth is Doubling,
                        self.growth == old(self).growth,
                        self.cells == old(self).cells,
                        self.pinned_len == old(self).pinned_len,
                        self.fragments == old(self).fragments,
                        old(self).maximum_capacity <= self.maximum_capacity,
                        grown_capacity(
                            self.growth,
                            self.maximum_capacity as nat,
                            new_maximum_capacity as nat,
                        ) == grown_capacity(
                            old(self).growth,
                            old(self).maximum_capacity as nat,
                            new_maximum_capacity as nat,
                        ),
                        grown_capacity(
                            old(self).growth,
                            old(self).maximum_capacity as nat,
                            new_maximum_capacity as nat,
                        ) <= usize::MAX,
                    decreases (if self.maximum_capacity >= new_maximum_capacity { 0int } else { new_maximum_capacity - self.maximum_capacity }),
                {
                    proof {
                        lemma_doubling_cumulative_step(self.max_fragments as nat);
                        lemma_grown_capacity_bounds(
                            self.growth,
                            self.maximum_capacity as nat,
                            new_maximum_capacity as nat,
                        );
                        lemma_pow2_at_least(self.max_fragments as nat);
                    }
                    self.maximum_capacity = 2 * self.maximum_capacity + 4;
                    self.max_fragments = self.max_fragments + 1;
                }
                self.maximum_capacity
            },
            Growth::Linear { fragment_capacity } => {
                proof {
                    lemma_grown_capacity_bounds(
                        self.growth,
                        self.maximum_capacity as nat,
                        new_maximum_capacity as nat,
                    );
                }
                while self.maximum_capacity < new_maximum_capacity
                    invariant
                        self.wf(),
                        self.growth == (Growth::Linear { fragment_capacity }),
                        self.growth == old(self).growth,
                        self.cells == old(self).cells,
                        self.pinned_len == old(self).pinned_len,
                        self.fragments == old(self).fragments,
                        old(self).maximum_capacity <= self.maximum_capacity,
                        grown_capacity(
                            self.growth,
                            self.maximum_capacity as nat,
                            new_maximum_capacity as nat,
                        ) == grown_capacity(
                            old(self).growth,
                            old(self).maximum_capacity as nat,
                            new_maximum_capacity as nat,
                        ),
                        grown_capacity(
                            old(self).growth,
                            old(self).maximum_capacity as nat,
                            new_maximum_capacity as nat,
                        ) <= usize::MAX,
                    decreases (if self.maximum_capacity >= new_maximum_capacity { 0int } else { new_maximum_capacity - self.maximum_capacity }),
                {
                    proof {
                        let m = self.maximum_capacity as nat;
                        let mf = self.max_fragments as nat;
                        let fc = fragment_capacity as nat;
                        lemma_grown_capacity_bounds(self.growth, m, new_maximum_capacity as nat);
                        assert((mf + 1) * fc == mf * fc + fc) by (nonlinear_arith);
                        assert(mf <= mf * fc) by (nonlinear_arith)
                            requires
                                1 <= fc,
                                0 <= mf,
                        ;
                    }
                    self.maximum_capacity = self.maximum_capacity + fragment_capacity;
                    self.max_fragments = self.max_fragments + 1;
                }
                self.maximum_capacity
            },
        }
    }

    /// A fresh, empty backing of the same growth configuration and the same
    /// maximum concurrent capacity, standing at its initial capacity with
    /// every position uninitialized.
    pub fn pseudo_default(&self) -> (r: Self)
        requires
            self.wf(),
        ensures
            r.wf(),
            r.pinned_len == 0,
            r@.len() == self.initial_capacity(),
            forall|i: int| 0 <= i < r@.len() ==> r@[i] is None,
            r.growth == self.growth,
            r.max_fragments == self.max_fragments,
            r.maximum_capacity == self.maximum_capacity,
            r.initial_capacity() == self.initial_capacity(),
    {
        let initial: usize = match self.growth {
            Growth::Doubling => 4,
            Growth::Linear { fragment_capacity } => fragment_capacity,
            Growth::Fixed => self.maximum_capacity,
        };
        proof {
            lemma2_to64();
            match self.growth {
                Growth::Doubling => {
                    lemma_doubling_cumulative_monotone(1, self.max_fragments as nat);
                },
                Growth::Linear { fragment_capacity } => {
                    assert(1 * fragment_capacity <= self.max_fragments * fragment_capacity)
                        by (nonlinear_arith)
                        requires
                            1 <= self.max_fragments,
                            0 <= fragment_capacity,
                    ;
                },
                Growth::Fixed => {},
            }
        }
        Backing {
            cells: none_cells(initial),
            pinned_len: 0,
            growth: self.growth,
            fragments: 1,
            max_fragments: self.max_fragments,
            maximum_capacity: self.maximum_capacity,
        }
    }

    /// A fresh backing of the same configuration whose length is `len` and
    /// whose first `len` positions hold clones of this backing's values, in
    /// the element type's own sense of a clone; capacity is grown just far
    /// enough to cover them, and every position past them stands
    /// uninitialized.
    pub fn clone_with_len(&self, len: usize) -> (r: Self) where T: Clone
        requires
            self.wf(),
            len <= self@.len(),
            forall|i: int| 0 <= i < len ==> self@[i] is Some,
        ensures
            r.wf(),
            r.pinned_len == len,
            r@.len() == grown_capacity(self.growth, self.initial_capacity(), len as nat),
            forall|i: int|
                0 <= i < len ==> (#[trigger] r@[i]) is Some && cloned::<T>(
                    self@[i]->0,
                    r@[i]->0,
                ),
            forall|i: int| len <= i < r@.len() ==> r@[i] is None,
            r.growth == self.growth,
            r.maximum_capacity == self.maximum_capacity,
    {
        let mut fresh = self.pseudo_default();
        fresh.grow_to(len);
        let mut i: usize = 0;
        while i < len
            invariant
                i <= len,
                len <= self@.len(),
                forall|j: int| 0 <= j < len ==> self@[j] is Some,
                fresh.wf(),
                fresh.pinned_len == 0,
                len <= fresh@.len(),
                fresh@.len() == grown_capacity(self.growth, self.initial_capacity(), len as nat),
                forall|j: int|
                    0 <= j < i ==> (#[trigger] fresh@[j]) is Some && cloned::<T>(
                        self@[j]->0,
                        fresh@[j]->0,
                    ),
                forall|j: int| i <= j < fresh@.len() ==> fresh@[j] is None,
                fresh.growth == self.growth,
                fresh.maximum_capacity == self.maximum_capacity,
            decreases len - i,
        {
            let cell: &Option<T> = &self.cells[i];
            match cell {
                Some(value) => {
                    let cloned_value = value.clone();
                    fresh.set_cell(i, cloned_value);
                },
                None => {},
            }
            i = i + 1;
        }
        fresh.pinned_len = len;
        fresh
    }
}

} // verus!
