//! Transaction validation against the chain state and the mempool's pending
//! sequence numbers.

use vstd::prelude::*;

use crate::chain::transaction::{OLTransaction, OLTransactionView, TxConstraints};
use crate::ids::{AccountId, TxId};
use crate::mempool::chain_view::{AccountKind, ChainState};
use crate::mempool::error::{OLMempoolError, OLMempoolResult, spec_reject_reason};

verus! {

/// Slot bounds: a transaction is not mature before its `min_slot` and has
/// expired after its `max_slot`; both bounds are inclusive.
pub open spec fn spec_check_constraints(txid: TxId, c: TxConstraints, cur_slot: u64) -> OLMempoolResult<()> {
    let not_mature = match c.min_slot {
        Some(min) => cur_slot < min,
        None => false,
    };
    let expired = match c.max_slot {
        Some(max) => cur_slot > max,
        None => false,
    };
    if not_mature {
        Err(OLMempoolError::TransactionNotMature { txid, min_slot: c.min_slot->0, current_slot: cur_slot })
    } else if expired {
        Err(OLMempoolError::TransactionExpired { txid, max_slot: c.max_slot->0, current_slot: cur_slot })
    } else {
        Ok(())
    }
}

/// The slot bounds, for every transaction and slot: before its `min_slot` a
/// transaction is not mature; otherwise, after its `max_slot` it has
/// expired, whatever its `min_slot`; within both bounds (each inclusive, an
/// absent bound admitting every slot) it passes.
pub proof fn lemma_slot_bounds(txid: TxId, c: TxConstraints, cur_slot: u64)
    ensures
        (c.min_slot is Some && cur_slot < c.min_slot->0) ==> spec_check_constraints(txid, c, cur_slot) == Err::<
            (),
            OLMempoolError,
        >(OLMempoolError::TransactionNotMature { txid, min_slot: c.min_slot->0, current_slot: cur_slot }),
        !(c.min_slot is Some && cur_slot < c.min_slot->0) && (c.max_slot is Some && cur_slot > c.max_slot->0)
            ==> spec_check_constraints(txid, c, cur_slot) == Err::<(), OLMempoolError>(
            OLMempoolError::TransactionExpired { txid, max_slot: c.max_slot->0, current_slot: cur_slot },
        ),
        !(c.min_slot is Some && cur_slot < c.min_slot->0) && !(c.max_slot is Some && cur_slot > c.max_slot->0)
            ==> spec_check_constraints(txid, c, cur_slot) is Ok,
{
}

/// Validation refuses an expired transaction as expired, whatever its
/// `min_slot`, as long as it is mature: no later check is reached.
pub proof fn lemma_expired_is_refused(
    txid: TxId,
    tx: OLTransactionView,
    chain: ChainState,
    pending: Option<(u64, u64)>,
    m: u64,
)
    requires
        tx.constraints().max_slot == Some(m),
        chain.cur_slot > m,
        !(tx.constraints().min_slot is Some && chain.cur_slot < tx.constraints().min_slot->0),
    ensures
        spec_validate(txid, tx, chain, pending) == Err::<(), OLMempoolError>(
            OLMempoolError::TransactionExpired { txid, max_slot: m, current_slot: chain.cur_slot },
        ),
{
    lemma_slot_bounds(txid, tx.constraints(), chain.cur_slot);
}

/// Every error validation gives is one the statistics count under a reason.
pub proof fn lemma_validation_errors_have_reasons(
    txid: TxId,
    tx: OLTransactionView,
    chain: ChainState,
    pending: Option<(u64, u64)>,
)
    ensures
        spec_validate(txid, tx, chain, pending) matches Err(e) ==> spec_reject_reason(e) is Some,
{
}

/// Checks a transaction's slot bounds against the current slot.
pub fn check_tx_constraints(txid: TxId, c: &TxConstraints, cur_slot: u64) -> (r: OLMempoolResult<()>)
    ensures
        r == spec_check_constraints(txid, *c, cur_slot),
        (c.min_slot is Some && cur_slot < c.min_slot->0) ==> r == Err::<(), OLMempoolError>(
            OLMempoolError::TransactionNotMature { txid, min_slot: c.min_slot->0, current_slot: cur_slot },
        ),
        !(c.min_slot is Some && cur_slot < c.min_slot->0) && (c.max_slot is Some && cur_slot > c.max_slot->0) ==> r
            == Err::<(), OLMempoolError>(
            OLMempoolError::TransactionExpired { txid, max_slot: c.max_slot->0, current_slot: cur_slot },
        ),
        !(c.min_slot is Some && cur_slot < c.min_slot->0) && !(c.max_slot is Some && cur_slot > c.max_slot->0) ==> r is Ok,
{
    proof {
        lemma_slot_bounds(txid, *c, cur_slot);
    }
    if let Some(min) = c.min_slot {
        if cur_slot < min {
            return Err(
                OLMempoolError::TransactionNotMature { txid, min_slot: min, current_slot: cur_slot },
            );
        }
    }
    if let Some(max) = c.max_slot {
        if cur_slot > max {
            return Err(
                OLMempoolError::TransactionExpired { txid, max_slot: max, current_slot: cur_slot },
            );
        }
    }
    Ok(())
}

/// A sequence number below the range has been used; one above it leaves a gap.
pub open spec fn spec_check_seq_no_in_range(txid: TxId, tx_seq_no: u64, min_expected: u64, max_expected: u64) -> OLMempoolResult<()> {
    if tx_seq_no < min_expected {
        Err(OLMempoolError::UsedSequenceNumber { txid, expected: min_expected, actual: tx_seq_no })
    } else if tx_seq_no > max_expected {
        Err(OLMempoolError::SequenceNumberGap { expected: max_expected, actual: tx_seq_no })
    } else {
        Ok(())
    }
}

/// The range rule, for every sequence number: below the range it has been
/// used, above it leaves a gap, within it (inclusive) it passes.
pub proof fn lemma_seq_no_range(txid: TxId, tx_seq_no: u64, min_expected: u64, max_expected: u64)
    ensures
        tx_seq_no < min_expected ==> spec_check_seq_no_in_range(txid, tx_seq_no, min_expected, max_expected)
            == Err::<(), OLMempoolError>(
            OLMempoolError::UsedSequenceNumber { txid, expected: min_expected, actual: tx_seq_no },
        ),
        min_expected <= tx_seq_no && tx_seq_no > max_expected ==> spec_check_seq_no_in_range(
            txid,
            tx_seq_no,
            min_expected,
            max_expected,
        ) == Err::<(), OLMempoolError>(OLMempoolError::SequenceNumberGap { expected: max_expected, actual: tx_seq_no }),
        min_expected <= tx_seq_no <= max_expected ==> spec_check_seq_no_in_range(
            txid,
            tx_seq_no,
            min_expected,
            max_expected,
        ) is Ok,
{
}

/// With updates of an account pending from `min` to `max`, a new update
/// passes exactly when its sequence number lies between `min` and one past
/// `max` (the next one due); below, it reuses a number; above, it leaves a
/// gap.
pub proof fn lemma_pending_seq_no_rule(
    txid: TxId,
    target: AccountId,
    tx_seq_no: u64,
    min: u64,
    max: u64,
    account: Option<AccountKind>,
)
    requires
        max < u64::MAX,
    ensures
        (spec_validate_seq_no(txid, target, tx_seq_no, Some((min, max)), account) is Ok) <==> (min <= tx_seq_no
            && tx_seq_no <= max + 1),
        tx_seq_no < min ==> spec_validate_seq_no(txid, target, tx_seq_no, Some((min, max)), account) == Err::<
            (),
            OLMempoolError,
        >(OLMempoolError::UsedSequenceNumber { txid, expected: min, actual: tx_seq_no }),
        min <= tx_seq_no && tx_seq_no > max + 1 ==> spec_validate_seq_no(
            txid,
            target,
            tx_seq_no,
            Some((min, max)),
            account,
        ) == Err::<(), OLMempoolError>(OLMempoolError::SequenceNumberGap { expected: (max + 1) as u64, actual: tx_seq_no }),
{
}

/// Checks a sequence number against an inclusive range.
pub fn check_seq_no_in_range(txid: TxId, tx_seq_no: u64, min_expected: u64, max_expected: u64) -> (r:
    OLMempoolResult<()>)
    ensures
        r == spec_check_seq_no_in_range(txid, tx_seq_no, min_expected, max_expected),
        tx_seq_no < min_expected ==> r == Err::<(), OLMempoolError>(
            OLMempoolError::UsedSequenceNumber { txid, expected: min_expected, actual: tx_seq_no },
        ),
        min_expected <= tx_seq_no && tx_seq_no > max_expected ==> r == Err::<(), OLMempoolError>(
            OLMempoolError::SequenceNumberGap { expected: max_expected, actual: tx_seq_no },
        ),
        min_expected <= tx_seq_no <= max_expected ==> r is Ok,
{
    if tx_seq_no < min_expected {
        return Err(
            OLMempoolError::UsedSequenceNumber { txid, expected: min_expected, actual: tx_seq_no },
        );
    }
    if tx_seq_no > max_expected {
        return Err(OLMempoolError::SequenceNumberGap { expected: max_expected, actual: tx_seq_no });
    }
    Ok(())
}

pub open spec fn spec_seq_no_error(txid: TxId, expected: u64, got: u64) -> OLMempoolError {
    if got < expected {
        OLMempoolError::UsedSequenceNumber { txid, expected, actual: got }
    } else {
        OLMempoolError::SequenceNumberGap { expected, actual: got }
    }
}

/// The error for a sequence number `got` where `expected` was due.
pub fn seq_no_error_to_mempool_error(txid: TxId, expected: u64, got: u64) -> (r: OLMempoolError)
    ensures
        r == spec_seq_no_error(txid, expected, got),
{
    if got < expected {
        OLMempoolError::UsedSequenceNumber { txid, expected, actual: got }
    } else {
        OLMempoolError::SequenceNumberGap { expected, actual: got }
    }
}

/// One past `x`, or `x` itself at the top of the range.
pub open spec fn next_or_max(x: u64) -> u64 {
    if x < u64::MAX {
        (x + 1) as u64
    } else {
        x
    }
}

/// The sequence-number rule for a snark account update. With updates of the
/// account pending in the mempool (their sequence numbers spanning `pending`),
/// the new one must lie between the lowest pending and one past the highest
/// (replacing a pending one or extending them). Without pending updates it
/// must be the one the account expects next.
pub open spec fn spec_validate_seq_no(
    txid: TxId,
    target: AccountId,
    tx_seq_no: u64,
    pending: Option<(u64, u64)>,
    account: Option<AccountKind>,
) -> OLMempoolResult<()> {
    match pending {
        Some((min, max)) => spec_check_seq_no_in_range(txid, tx_seq_no, min, next_or_max(max)),
        None => match account {
            None => Err(OLMempoolError::AccountDoesNotExist { account: target }),
            Some(AccountKind::Empty) => Err(OLMempoolError::AccountTypeMismatch { txid, account: target }),
            Some(AccountKind::Snark { seq_no }) => if tx_seq_no == seq_no {
                Ok(())
            } else {
                Err(spec_seq_no_error(txid, seq_no, tx_seq_no))
            },
        },
    }
}

/// Checks the sequence number of a snark account update.
pub fn validate_snark_account_update_tx_seq_no(
    txid: TxId,
    target: AccountId,
    tx_seq_no: u64,
    pending: Option<(u64, u64)>,
    chain: &ChainState,
) -> (r: OLMempoolResult<()>)
    ensures
        r == spec_validate_seq_no(txid, target, tx_seq_no, pending, chain.account(target)),
{
    match pending {
        Some((min, max)) => check_seq_no_in_range(txid, tx_seq_no, min, max.saturating_add(1)),
        None => match chain.get_account_state(&target) {
            None => Err(OLMempoolError::AccountDoesNotExist { account: target }),
            Some(AccountKind::Empty) => Err(OLMempoolError::AccountTypeMismatch { txid, account: target }),
            Some(AccountKind::Snark { seq_no }) => {
                if tx_seq_no == seq_no {
                    Ok(())
                } else {
                    Err(seq_no_error_to_mempool_error(txid, seq_no, tx_seq_no))
                }
            },
        },
    }
}

/// Validation of a transaction: slot bounds, then the target account's
/// existence, then, for a snark account update, its sequence number.
pub open spec fn spec_validate(
    txid: TxId,
    tx: OLTransactionView,
    chain: ChainState,
    pending: Option<(u64, u64)>,
) -> OLMempoolResult<()> {
    let target = tx.target();
    if spec_check_constraints(txid, tx.constraints(), chain.cur_slot) is Err {
        spec_check_constraints(txid, tx.constraints(), chain.cur_slot)
    } else if chain.account(target) is None {
        Err(OLMempoolError::AccountDoesNotExist { account: target })
    } else {
        match tx.seq_no() {
            Some(seq_no) => spec_validate_seq_no(txid, target, seq_no, pending, chain.account(target)),
            None => Ok(()),
        }
    }
}

/// Validates transaction `tx` with id `txid` against the chain state and the
/// range of sequence numbers pending in the mempool for its target account.
pub fn validate_transaction(
    txid: TxId,
    tx: &OLTransaction,
    chain: &ChainState,
    pending: Option<(u64, u64)>,
) -> (r: OLMempoolResult<()>)
    ensures
        r == spec_validate(txid, tx@, *chain, pending),
        tx@.constraints().max_slot is Some && chain.cur_slot > tx@.constraints().max_slot->0 && !(
        tx@.constraints().min_slot is Some && chain.cur_slot < tx@.constraints().min_slot->0) ==> r == Err::<
            (),
            OLMempoolError,
        >(
            OLMempoolError::TransactionExpired {
                txid,
                max_slot: tx@.constraints().max_slot->0,
                current_slot: chain.cur_slot,
            },
        ),
{
    proof {
        if tx@.constraints().max_slot is Some && chain.cur_slot > tx@.constraints().max_slot->0 {
            if !(tx@.constraints().min_slot is Some && chain.cur_slot < tx@.constraints().min_slot->0) {
                lemma_expired_is_refused(txid, tx@, *chain, pending, tx@.constraints().max_slot->0);
            }
        }
    }
    let target = tx.payload().target_account();
    check_tx_constraints(txid, tx.constraints(), chain.cur_slot)?;
    if chain.get_account_state(&target).is_none() {
        return Err(OLMempoolError::AccountDoesNotExist { account: target });
    }
    match tx.payload().seq_no() {
        Some(seq_no) => validate_snark_account_update_tx_seq_no(txid, target, seq_no, pending, chain),
        None => Ok(()),
    }
}

} // verus!
