//! Common relevant traits, structs and enums, re-exported in one place.

pub use crate::backing::Backing;
pub use crate::backing::Growth;
pub use crate::capacity::CapacityState;
pub use crate::col::PinnedConcurrentCol;
pub use crate::mem_state::VecDropState;
pub use crate::state::ConcurrentState;
pub use crate::write_permit::WritePermit;
