//! Verified core logic of the OL node services: the transaction mempool, the
//! proof-task lifecycle and store, the sequencer's duty bookkeeping and the
//! epoch accumulator of data-availability writes.

use vstd::prelude::*;

pub mod sys;
pub mod ids;
pub mod chain;
pub mod mempool;
pub mod prover;
pub mod sequencer;
pub mod checkpoint;
pub mod da;

verus! {

} // verus!
