//! Sequencer duties: what the sequencer has to sign, when a duty is due and
//! when it expires, the bookkeeping that dispatches each duty once, and the
//! duties' wire form.

pub mod duty;
pub mod tracker;
pub mod payload;
pub mod rpc;
pub mod checkpoint_duty;
