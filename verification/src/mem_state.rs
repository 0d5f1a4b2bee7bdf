use vstd::prelude::*;

verus! {

/// Whether the engine still owns the elements of its backing vector when it is
/// dropped, or the backing has already been taken out by extraction.
#[derive(Debug, PartialEq, Eq, Structural)]
pub enum VecDropState {
    /// The engine owns the backing; its drop must settle the backing's length
    /// so that no unwritten position is treated as a live element.
    ToBeDropped,
    /// The backing was extracted; the engine's drop releases only what the
    /// replacement husk holds.
    TakenOut,
}

} // verus!
