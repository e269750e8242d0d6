use strata_ol::chain::transaction::{
    OLTransaction, OLTransactionData, SauTxLedgerRefs, SauTxOperationData, SauTxPayload, SauTxProofState,
    SauTxUpdateData, TransactionPayload, TxConstraints, TxEffects, TxProofs,
};
use strata_ol::ids::{AccountId, Buf32};
use strata_ol::mempool::chain_view::{AccountKind, AccountState, ChainState};
use strata_ol::mempool::error::OLMempoolError;
use strata_ol::mempool::validation::{check_seq_no_in_range, validate_transaction};

fn account(b: u8) -> AccountId {
    let mut bytes = [0u8; 32];
    bytes[0] = b;
    AccountId(bytes)
}

fn generic_tx_with_slots(min_slot: Option<u64>, max_slot: Option<u64>) -> OLTransaction {
    OLTransaction::new(
        OLTransactionData::new_gam(account(1), vec![1, 2, 3, 4, 5, 6, 7, 8, 9, 10])
            .with_constraints(TxConstraints::new(min_slot, max_slot)),
        TxProofs::new_empty(),
    )
}

fn snark_tx(target: AccountId, seq_no: u64, min_slot: Option<u64>, max_slot: Option<u64>) -> OLTransaction {
    let op = SauTxOperationData::new(
        SauTxUpdateData::new(seq_no, SauTxProofState::new(0, Buf32([0u8; 32])), vec![]),
        vec![],
        SauTxLedgerRefs::new_empty(),
    );
    let payload = TransactionPayload::SnarkAccountUpdate(SauTxPayload::new(target, op));
    OLTransaction::new(
        OLTransactionData::new(payload, TxEffects::empty()).with_constraints(TxConstraints::new(min_slot, max_slot)),
        TxProofs::new_empty(),
    )
}

fn state_with_account(id: AccountId, slot: u64) -> ChainState {
    ChainState::new(slot, vec![AccountState { id, kind: AccountKind::Empty }])
}

fn state_with_snark_account(id: AccountId, seq_no: u64, slot: u64) -> ChainState {
    ChainState::new(slot, vec![AccountState { id, kind: AccountKind::Snark { seq_no } }])
}

fn target(tx: &OLTransaction) -> AccountId {
    tx.target().expect("all payloads have a target")
}

#[test]
fn test_slot_bounds_expired() {
    let tx = generic_tx_with_slots(None, Some(50));
    let state = state_with_account(target(&tx), 100);
    let result = validate_transaction(tx.compute_txid(), &tx, &state, None);
    assert!(result.is_err());
    assert!(matches!(result.unwrap_err(), OLMempoolError::TransactionExpired { .. }));
}

#[test]
fn test_slot_bounds_not_yet_valid() {
    let tx = generic_tx_with_slots(Some(150), None);
    let state = state_with_account(target(&tx), 100);
    let result = validate_transaction(tx.compute_txid(), &tx, &state, None);
    assert!(result.is_err());
    assert!(matches!(result.unwrap_err(), OLMempoolError::TransactionNotMature { .. }));
}

#[test]
fn test_min_slot_boundary() {
    let tx = generic_tx_with_slots(Some(100), None);
    let state = state_with_account(target(&tx), 100);
    assert!(validate_transaction(tx.compute_txid(), &tx, &state, None).is_ok());
}

#[test]
fn test_max_slot_boundary() {
    let tx = generic_tx_with_slots(None, Some(100));
    let state = state_with_account(target(&tx), 100);
    assert!(validate_transaction(tx.compute_txid(), &tx, &state, None).is_ok());
}

#[test]
fn test_max_slot_one_after_current() {
    let tx = generic_tx_with_slots(None, Some(101));
    let state = state_with_account(target(&tx), 100);
    assert!(validate_transaction(tx.compute_txid(), &tx, &state, None).is_ok());
}

#[test]
fn test_slot_bounds_valid() {
    let tx = generic_tx_with_slots(Some(50), Some(150));
    let state = state_with_account(target(&tx), 100);
    assert!(validate_transaction(tx.compute_txid(), &tx, &state, None).is_ok());
}

#[test]
fn test_validation_with_valid_transaction() {
    let tx = generic_tx_with_slots(Some(50), Some(150));
    let state = state_with_account(target(&tx), 100);
    assert!(validate_transaction(tx.compute_txid(), &tx, &state, None).is_ok());
}

#[test]
fn test_slot_bounds_no_constraints() {
    let tx = generic_tx_with_slots(None, None);
    let state = state_with_account(target(&tx), 100);
    assert!(validate_transaction(tx.compute_txid(), &tx, &state, None).is_ok());
}

#[test]
fn test_account_does_not_exist() {
    let tx = generic_tx_with_slots(Some(50), Some(150));
    let state = state_with_account(account(200), 100);
    let result = validate_transaction(tx.compute_txid(), &tx, &state, None);
    assert!(result.is_err());
    assert!(matches!(result.unwrap_err(), OLMempoolError::AccountDoesNotExist { .. }));
}

#[test]
fn test_snark_account_seq_no_valid() {
    let t = account(3);
    let tx = snark_tx(t, 12, Some(50), Some(150));
    let state = state_with_snark_account(t, 12, 100);
    assert!(validate_transaction(tx.compute_txid(), &tx, &state, None).is_ok());
}

#[test]
fn test_snark_account_seq_no_invalid() {
    let t = account(3);
    let tx_seq_no = 12;
    let tx = snark_tx(t, tx_seq_no, Some(50), Some(150));
    let state = state_with_snark_account(t, tx_seq_no + 1, 100);
    let result = validate_transaction(tx.compute_txid(), &tx, &state, None);
    assert!(result.is_err());
    assert!(matches!(result.unwrap_err(), OLMempoolError::UsedSequenceNumber { .. }));

    let t2 = account(1);
    let tx2 = snark_tx(t2, 10, Some(50), Some(150));
    let state2 = state_with_snark_account(t2, 5, 100);
    let result = validate_transaction(tx2.compute_txid(), &tx2, &state2, Some((5, 7)));
    assert!(result.is_err());
    match result.unwrap_err() {
        OLMempoolError::SequenceNumberGap { expected, actual } => {
            assert_eq!(expected, 8);
            assert_eq!(actual, 10);
        }
        other => panic!("expected a gap, got {:?}", other),
    }
}

#[test]
fn pending_range_accepts_replacement_and_next() {
    let t = account(4);
    let state = state_with_snark_account(t, 5, 100);
    for seq in [5u64, 6, 7, 8] {
        let tx = snark_tx(t, seq, None, None);
        assert!(validate_transaction(tx.compute_txid(), &tx, &state, Some((5, 7))).is_ok(), "seq {}", seq);
    }
    let tx = snark_tx(t, 4, None, None);
    assert!(matches!(
        validate_transaction(tx.compute_txid(), &tx, &state, Some((5, 7))),
        Err(OLMempoolError::UsedSequenceNumber { expected: 5, actual: 4, .. })
    ));
}

#[test]
fn snark_update_to_empty_account_is_a_type_mismatch() {
    let t = account(6);
    let tx = snark_tx(t, 0, None, None);
    let state = state_with_account(t, 1);
    assert!(matches!(
        validate_transaction(tx.compute_txid(), &tx, &state, None),
        Err(OLMempoolError::AccountTypeMismatch { .. })
    ));
}

#[test]
fn seq_no_range_check() {
    let id = generic_tx_with_slots(None, None).compute_txid();
    assert!(check_seq_no_in_range(id, 5, 5, 6).is_ok());
    assert!(matches!(check_seq_no_in_range(id, 4, 5, 6), Err(OLMempoolError::UsedSequenceNumber { .. })));
    assert!(matches!(check_seq_no_in_range(id, 7, 5, 6), Err(OLMempoolError::SequenceNumberGap { expected: 6, actual: 7 })));
}
