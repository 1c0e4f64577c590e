//! State-diff synchronization core: diff normalization, reorg detection,
//! commit routing and the sync-loop state machine.

pub mod diff;
pub mod store;
pub mod sync;
pub mod network;
