//! OL chain types used by the mempool: transactions, their parts, and their
//! canonical byte encoding and identifier.

pub mod transaction;
pub mod encoding;
pub mod decoding;
pub mod txid;
