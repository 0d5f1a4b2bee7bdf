use vstd::prelude::*;

verus! {

/// The action that the pinned concurrent collection must take on a request to
/// write to a given position, or to a given range of positions.
#[derive(Debug)]
pub enum WritePermit {
    /// The requested positions are already backed by allocated memory; the
    /// collection may write to them without any delay.
    JustWrite,
    /// The collection needs to grow to perform the write request, and the
    /// caller takes the responsibility of the allocation; once the backing
    /// covers the positions, the caller is free to write.
    GrowThenWrite,
    /// The requested positions lie beyond the frontier while another caller
    /// is growing; the caller must stand back and re-evaluate the permit.
    Spin,
}

/// What a permit may claim of a single-position write request, judged against
/// the backing's capacity at the moment of the decision: an immediate write is
/// granted only within the allocated region, the caller is elected to grow
/// only at the frontier itself, and waiting is asked only of writes strictly
/// beyond the frontier.
pub open spec fn permit_consistent(permit: WritePermit, idx: int, capacity: int) -> bool {
    &&& (permit is JustWrite ==> idx < capacity)
    &&& (permit is GrowThenWrite ==> idx == capacity)
    &&& (permit is Spin ==> idx > capacity)
}

/// What a permit may claim of a write request for the range
/// `[begin_idx, begin_idx + num_items)`: an immediate write is granted only
/// when the whole range is allocated, the caller is elected to grow only when
/// the range crosses the frontier, and waiting is asked only of ranges that
/// start strictly beyond it.
pub open spec fn permit_consistent_n_items(
    permit: WritePermit,
    begin_idx: int,
    num_items: int,
    capacity: int,
) -> bool {
    &&& (permit is JustWrite ==> begin_idx + num_items <= capacity)
    &&& (permit is GrowThenWrite ==> begin_idx <= capacity < begin_idx + num_items)
    &&& (permit is Spin ==> begin_idx > capacity)
}

/// Single-grower election. Of two write requests issued against the same
/// capacity, one at the frontier and one just past it, any consistent permit
/// decision elects exactly the frontier writer to grow and asks the other to
/// wait: no grow is lost and no second grower is ever elected.
pub proof fn lemma_single_grower_election(
    permit_at_frontier: WritePermit,
    permit_beyond: WritePermit,
    capacity: int,
)
    requires
        permit_consistent(permit_at_frontier, capacity, capacity),
        permit_consistent(permit_beyond, capacity + 1, capacity),
    ensures
        permit_at_frontier is GrowThenWrite,
        permit_beyond is Spin,
{
}

} // verus!
