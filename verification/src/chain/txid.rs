//! Transaction identifiers: the SSZ-style Merkle root of the canonical
//! encoding of a transaction's data, mixed with the encoding's length.

use vstd::prelude::*;

use crate::chain::encoding::{enc_tx_data, encode_tx_data};
use crate::chain::transaction::{OLTransaction, OLTransactionData, OLTransactionDataView};
use crate::ids::TxId;

verus! {

/// What `tree_hash::merkle_root` returns for `bytes` and a minimum leaf count.
pub uninterp spec fn merkle_root_of(bytes: Seq<u8>, minimum_leaf_count: usize) -> Seq<u8>;

/// What `tree_hash::mix_in_length` returns for a root and a length.
pub uninterp spec fn mix_in_length_of(root: Seq<u8>, length: usize) -> Seq<u8>;

/// The longest input, in bytes, whose Merkle tree `tree_hash` can build:
/// 2^48 chunks of 32 bytes (deeper trees run out of its precomputed padding
/// hashes, and it panics).
pub open spec fn merkle_input_fits(len: nat) -> bool {
    len <= 0x20_0000_0000_0000
}

/// Calls `tree_hash::merkle_root` with no minimum leaf count: the root of the
/// binary Merkle tree over the 32-byte chunks of `bytes`. The result is
/// named, not described. The input is limited to what the crate can hash
/// without panicking.
#[verifier::external_body]
fn merkle_root(bytes: &[u8], minimum_leaf_count: usize) -> (r: [u8; 32])
    requires
        minimum_leaf_count == 0,
        merkle_input_fits(bytes@.len()),
    ensures
        r@ == merkle_root_of(bytes@, minimum_leaf_count),
{
    tree_hash::merkle_root(bytes, minimum_leaf_count).0
}

/// Calls `tree_hash::mix_in_length`: the hash of `root` together with a
/// length. The result is named, not described.
#[verifier::external_body]
fn mix_in_length(root: &[u8; 32], length: usize) -> (r: [u8; 32])
    ensures
        r@ == mix_in_length_of(root@, length),
{
    tree_hash::mix_in_length(&tree_hash::Hash256::from(*root), length).0
}

/// The identifier of transaction data with canonical encoding `enc`.
pub open spec fn txid_of_encoding(enc: Seq<u8>) -> Seq<u8> {
    mix_in_length_of(merkle_root_of(enc, 0), enc.len() as usize)
}

/// The identifier of transaction data.
pub open spec fn spec_txid(d: OLTransactionDataView) -> Seq<u8> {
    txid_of_encoding(enc_tx_data(d))
}

/// The identifier of the transaction data whose canonical encoding is `enc`.
pub fn txid_from_encoding(enc: &[u8]) -> (r: TxId)
    requires
        merkle_input_fits(enc@.len()),
    ensures
        r.0@ == txid_of_encoding(enc@),
{
    let root = merkle_root(enc, 0);
    TxId(mix_in_length(&root, enc.len()))
}

impl OLTransactionData {
    /// The transaction identifier: it covers the data, not the proofs.
    pub fn compute_txid(&self) -> (r: TxId)
        requires
            merkle_input_fits(enc_tx_data(self@).len()),
        ensures
            r.0@ == spec_txid(self@),
    {
        let enc = encode_tx_data(self);
        txid_from_encoding(enc.as_slice())
    }
}

impl OLTransaction {
    pub fn compute_txid(&self) -> (r: TxId)
        requires
            merkle_input_fits(enc_tx_data(self@.data).len()),
        ensures
            r.0@ == spec_txid(self@.data),
    {
        self.data.compute_txid()
    }
}

} // verus!
