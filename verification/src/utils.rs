//! Building blocks shared by the rest of the engine.

pub mod marc;
pub mod state;
pub mod xid;

pub use state::{SessionState, Worker, WorkerState};
pub use xid::Xid;
