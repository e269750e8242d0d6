use strata_ol::chain::decoding::decode_tx;
use strata_ol::chain::encoding::encode_tx;
use strata_ol::chain::transaction::{
    AccumulatorClaim, GamTxPayload, MessageEntry, OLTransaction, OLTransactionData, SauTxLedgerRefs,
    SauTxOperationData, SauTxPayload, SauTxProofState, SauTxUpdateData, TransactionPayload, TxConstraints,
    TxEffects, TxProofs, TxTypeId,
};
use strata_ol::chain::txid::txid_from_encoding;
use strata_ol::ids::{AccountId, Buf32};

fn tx_with(payload: TransactionPayload, constraints: TxConstraints, proofs: TxProofs) -> OLTransaction {
    let data = OLTransactionData::new(payload, TxEffects::empty()).with_constraints(constraints);
    OLTransaction::new(data, proofs)
}

fn gam_payload(b: u8) -> TransactionPayload {
    TransactionPayload::GenericAccountMessage(GamTxPayload { target: AccountId([b; 32]) })
}

fn sau_payload(target: u8, seq_no: u64, next_idx: u64, root: u8) -> TransactionPayload {
    TransactionPayload::SnarkAccountUpdate(SauTxPayload {
        target: AccountId([target; 32]),
        operation_data: SauTxOperationData {
            update_data: SauTxUpdateData {
                seq_no,
                proof_state: SauTxProofState { new_next_msg_idx: next_idx, inner_state_root: Buf32([root; 32]) },
                extra_data: vec![],
            },
            messages: vec![],
            ledger_refs: SauTxLedgerRefs { asm_history_proofs: None },
        },
    })
}

fn roundtrip(tx: &OLTransaction) -> OLTransaction {
    let bytes = encode_tx(tx);
    decode_tx(&bytes).expect("an encoding reads back")
}

#[test]
fn test_none_values() {
    let constraints = TxConstraints { min_slot: None, max_slot: None };
    let tx = tx_with(gam_payload(0), constraints.clone(), TxProofs::new_empty());
    let decoded = roundtrip(&tx);
    assert_eq!(decoded.constraints(), &constraints);
}

#[test]
fn test_roundtrip() {
    let msg = GamTxPayload { target: AccountId([0u8; 32]) };
    let tx = tx_with(TransactionPayload::GenericAccountMessage(msg), TxConstraints::unbounded(), TxProofs::new_empty());
    let decoded = roundtrip(&tx);
    assert_eq!(decoded.payload(), &TransactionPayload::GenericAccountMessage(msg));
}

#[test]
fn test_gam_tx_payload_variant() {
    let payload = gam_payload(0);
    let tx = tx_with(payload.clone(), TxConstraints::unbounded(), TxProofs::new_empty());
    let decoded = roundtrip(&tx);
    assert_eq!(decoded.payload(), &payload);
}

#[test]
fn test_snark_account_update_tx_payload_variant() {
    let payload = sau_payload(0, 1, 0, 0);
    let tx = tx_with(payload.clone(), TxConstraints::unbounded(), TxProofs::new_empty());
    let decoded = roundtrip(&tx);
    assert_eq!(decoded.payload(), &payload);
}

#[test]
fn test_generic_message() {
    let tx = tx_with(gam_payload(0), TxConstraints::unbounded(), TxProofs { predicate_satisfiers: None, accumulator_proofs: None });
    assert_eq!(roundtrip(&tx), tx);
}

#[test]
fn test_snark_account_update() {
    let tx = tx_with(
        sau_payload(1, 42, 10, 5),
        TxConstraints { min_slot: Some(100), max_slot: Some(200) },
        TxProofs { predicate_satisfiers: None, accumulator_proofs: None },
    );
    assert_eq!(roundtrip(&tx), tx);
}

#[test]
fn roundtrip_of_a_full_snark_update() {
    let mut payload = sau_payload(7, 9, 3, 2);
    if let TransactionPayload::SnarkAccountUpdate(ref mut p) = payload {
        p.operation_data.update_data.extra_data = vec![1, 2, 3];
        p.operation_data.messages = vec![MessageEntry { source: AccountId([4; 32]), incl_epoch: 5, value: 6, data: vec![7, 8] }];
        p.operation_data.ledger_refs = SauTxLedgerRefs {
            asm_history_proofs: Some(vec![AccumulatorClaim { idx: 11, entry_hash: Buf32([12; 32]) }]),
        };
    }
    let mut effects = TxEffects::empty();
    effects.push_message(AccountId([9; 32]), 1000, vec![0xaa]);
    let data = OLTransactionData::new(payload, effects).with_constraints(TxConstraints::new(Some(1), None));
    let tx = OLTransaction::new(data, TxProofs::new(Some(vec![vec![1], vec![]]), Some(vec![vec![2, 3]])));
    assert_eq!(roundtrip(&tx), tx);
}

#[test]
fn encoding_of_a_small_message_transaction() {
    let tx = tx_with(gam_payload(3), TxConstraints::new(Some(1), None), TxProofs::new_empty());
    let mut expected = vec![0u8];
    expected.extend_from_slice(&[3u8; 32]);
    expected.push(1);
    expected.extend_from_slice(&1u64.to_le_bytes());
    expected.push(0);
    expected.extend_from_slice(&0u64.to_le_bytes());
    expected.push(0);
    expected.push(0);
    assert_eq!(encode_tx(&tx), expected);
}

#[test]
fn decoding_refuses_trailing_and_missing_bytes() {
    let tx = tx_with(sau_payload(1, 2, 3, 4), TxConstraints::unbounded(), TxProofs::new_empty());
    let mut bytes = encode_tx(&tx);
    bytes.push(0);
    assert!(decode_tx(&bytes).is_none());
    bytes.pop();
    bytes.pop();
    assert!(decode_tx(&bytes).is_none());
    assert!(decode_tx(&[]).is_none());
    assert!(decode_tx(&[2u8]).is_none());
}

#[test]
fn txid_is_a_hash_of_the_data_not_the_encoding() {
    let tx = tx_with(gam_payload(5), TxConstraints::unbounded(), TxProofs::new_empty());
    let id = tx.compute_txid();
    let enc = strata_ol::chain::encoding::encode_tx_data(tx.data());
    assert_ne!(&id.0[..], &enc[..32]);
    assert_eq!(id, txid_from_encoding(&enc));
    let with_proofs = tx.clone().with_accumulator_proofs(Some(vec![vec![1, 2]]));
    assert_eq!(with_proofs.compute_txid(), id);
    let other = tx_with(gam_payload(6), TxConstraints::unbounded(), TxProofs::new_empty());
    assert_ne!(other.compute_txid(), id);
}

#[test]
fn type_ids_of_payloads() {
    assert_eq!(gam_payload(0).type_id(), TxTypeId::GenericAccountMessage);
    assert_eq!(sau_payload(0, 0, 0, 0).type_id(), TxTypeId::SnarkAccountUpdate);
    assert_eq!(TxTypeId::from_code(TxTypeId::SnarkAccountUpdate.code()), Some(TxTypeId::SnarkAccountUpdate));
}
