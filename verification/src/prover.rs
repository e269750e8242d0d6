//! Proof-task lifecycle: task states, errors, stored records, the task store
//! and the retry decisions of the prover.

pub mod task;
pub mod error;
pub mod record;
pub mod store;
pub mod retry;
