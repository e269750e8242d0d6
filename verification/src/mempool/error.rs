//! Mempool errors and the rejection reasons they count as.

use vstd::prelude::*;

use crate::ids::{AccountId, TxId};
use crate::mempool::types::OLMempoolRejectReason;

verus! {

/// Errors of mempool operations.
#[derive(Debug, Clone, PartialEq, Eq)]
pub enum OLMempoolError {
    /// The mempool holds its maximum number of transactions.
    MempoolFull { current: usize, limit: usize },
    /// Adding the transaction would exceed the byte limit.
    MempoolByteLimitExceeded { current: usize, limit: usize },
    /// The target account does not exist.
    AccountDoesNotExist { account: AccountId },
    /// The target account's type does not fit the transaction.
    AccountTypeMismatch { txid: TxId, account: AccountId },
    /// The transaction's encoding exceeds the size limit.
    TransactionTooLarge { size: usize, limit: usize },
    /// The transaction's max_slot is before the current slot.
    TransactionExpired { txid: TxId, max_slot: u64, current_slot: u64 },
    /// The transaction's min_slot is after the current slot.
    TransactionNotMature { txid: TxId, min_slot: u64, current_slot: u64 },
    /// The sequence number has already been used.
    UsedSequenceNumber { txid: TxId, expected: u64, actual: u64 },
    /// The sequence number leaves a gap.
    SequenceNumberGap { expected: u64, actual: u64 },
    /// Account state could not be read.
    AccountStateAccess(String),
    /// No such transaction.
    TransactionNotFound(TxId),
    /// Storage failure.
    Database(String),
    /// State provider failure.
    StateProvider(String),
    /// Encoding or decoding failure.
    Serialization(String),
    /// The mempool service has stopped.
    ServiceClosed(String),
}

pub type OLMempoolResult<T> = Result<T, OLMempoolError>;

/// The rejection reason that an error counts as in the statistics, if any.
pub open spec fn spec_reject_reason(e: OLMempoolError) -> Option<OLMempoolRejectReason> {
    match e {
        OLMempoolError::MempoolFull { .. } => Some(OLMempoolRejectReason::MempoolFull),
        OLMempoolError::MempoolByteLimitExceeded { .. } => Some(OLMempoolRejectReason::MempoolFull),
        OLMempoolError::AccountDoesNotExist { .. } => Some(OLMempoolRejectReason::AccountDoesNotExist),
        OLMempoolError::AccountTypeMismatch { .. } => Some(OLMempoolRejectReason::AccountTypeMismatch),
        OLMempoolError::TransactionTooLarge { .. } => Some(OLMempoolRejectReason::TransactionTooLarge),
        OLMempoolError::TransactionExpired { .. } => Some(OLMempoolRejectReason::TransactionExpired),
        OLMempoolError::TransactionNotMature { .. } => Some(OLMempoolRejectReason::TransactionNotMature),
        OLMempoolError::UsedSequenceNumber { .. } => Some(OLMempoolRejectReason::UsedSequenceNumber),
        OLMempoolError::SequenceNumberGap { .. } => Some(OLMempoolRejectReason::SequenceNumberGap),
        _ => None,
    }
}

impl OLMempoolRejectReason {
    /// The rejection reason that `error` counts as in the statistics: none for
    /// internal and lookup errors, which are not rejections.
    pub fn from_error(error: &OLMempoolError) -> (r: Option<OLMempoolRejectReason>)
        ensures
            r == spec_reject_reason(*error),
    {
        match error {
            OLMempoolError::MempoolFull { .. } => Some(OLMempoolRejectReason::MempoolFull),
            OLMempoolError::MempoolByteLimitExceeded { .. } => Some(OLMempoolRejectReason::MempoolFull),
            OLMempoolError::AccountDoesNotExist { .. } => Some(OLMempoolRejectReason::AccountDoesNotExist),
            OLMempoolError::AccountTypeMismatch { .. } => Some(OLMempoolRejectReason::AccountTypeMismatch),
            OLMempoolError::TransactionTooLarge { .. } => Some(OLMempoolRejectReason::TransactionTooLarge),
            OLMempoolError::TransactionExpired { .. } => Some(OLMempoolRejectReason::TransactionExpired),
            OLMempoolError::TransactionNotMature { .. } => Some(OLMempoolRejectReason::TransactionNotMature),
            OLMempoolError::UsedSequenceNumber { .. } => Some(OLMempoolRejectReason::UsedSequenceNumber),
            OLMempoolError::SequenceNumberGap { .. } => Some(OLMempoolRejectReason::SequenceNumberGap),
            OLMempoolError::AccountStateAccess(_) => None,
            OLMempoolError::TransactionNotFound(_) => None,
            OLMempoolError::Database(_) => None,
            OLMempoolError::StateProvider(_) => None,
            OLMempoolError::Serialization(_) => None,
            OLMempoolError::ServiceClosed(_) => None,
        }
    }
}

} // verus!
