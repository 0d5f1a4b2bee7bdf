//! A coordination core for high-performance concurrent collections built atop
//! a pinned backing vector: a growable sequence whose already-inserted
//! elements keep their positions under every growth operation.
//!
//! The core layers a write/growth protocol over such a backing: a three-valued
//! write permit ([`WritePermit`]) decides whether a write may proceed at once,
//! must first grow the backing, or must wait; a pluggable policy
//! ([`ConcurrentState`]) makes that decision and keeps the wrapper's own
//! bookkeeping; and the engine ([`PinnedConcurrentCol`]) owns the backing,
//! runs the permit loop, grows the backing to cover writes at the frontier,
//! and defends extraction and drop against partially written storage.
//!
//! The core itself does not track which positions are written; the wrappers
//! that compose a safe collection (a bag, an ordered bag, a vector) discharge
//! the write-tracking preconditions stated on the engine's operations.

pub mod backing;
pub mod capacity;
pub mod col;
pub mod mem_state;
pub mod new;
pub mod prelude;
pub mod state;
pub mod write_permit;

pub use backing::Backing;
pub use col::PinnedConcurrentCol;
pub use state::ConcurrentState;
pub use write_permit::WritePermit;
