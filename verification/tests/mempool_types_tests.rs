use std::cmp::Ordering;

use strata_ol::chain::decoding::decode_tx;
use strata_ol::chain::encoding::encode_tx;
use strata_ol::chain::transaction::{
    OLTransaction, OLTransactionData, SauTxLedgerRefs, SauTxOperationData, SauTxPayload, SauTxProofState,
    SauTxUpdateData, TransactionPayload, TxConstraints, TxEffects, TxProofs,
};
use strata_ol::ids::{AccountId, Buf32};
use strata_ol::mempool::ordering::MempoolOrderingKey;
use strata_ol::mempool::state::MempoolEntry;

fn account(b: u8) -> AccountId {
    let mut bytes = [0u8; 32];
    bytes[0] = b;
    bytes[31] = 0x5a;
    AccountId(bytes)
}

fn constraints() -> TxConstraints {
    TxConstraints::new(Some(3), Some(900))
}

fn message_payload() -> Vec<u8> {
    vec![0x11, 0x22, 0x33, 0x44, 0x55]
}

fn snark_update(seq_no: u64) -> SauTxOperationData {
    SauTxOperationData::new(
        SauTxUpdateData::new(seq_no, SauTxProofState::new(4, Buf32([9u8; 32])), vec![1, 2]),
        vec![],
        SauTxLedgerRefs::new_empty(),
    )
}

fn snark_tx(target: AccountId, seq_no: u64, constraints: TxConstraints) -> OLTransaction {
    let payload = TransactionPayload::SnarkAccountUpdate(SauTxPayload::new(target, snark_update(seq_no)));
    let data = OLTransactionData::new(payload, TxEffects::empty()).with_constraints(constraints);
    OLTransaction::new(data, TxProofs::new(Some(vec![vec![7u8; 8]]), None))
}

fn generic_tx() -> OLTransaction {
    OLTransaction::new(
        OLTransactionData::new_gam(account(2), message_payload()).with_constraints(constraints()),
        TxProofs::new_empty(),
    )
}

fn entry(tx: &OLTransaction, key: MempoolOrderingKey) -> MempoolEntry {
    MempoolEntry::new(tx.compute_txid(), tx.clone(), key, 100)
}

#[test]
fn test_generic_account_message_creation() {
    let target = account(1);
    let c = constraints();
    let tx = OLTransaction::new(
        OLTransactionData::new_gam(target, message_payload()).with_constraints(c),
        TxProofs::new_empty(),
    );
    assert_eq!(tx.target(), Some(target));
    assert_eq!(tx.constraints(), &c);
    assert!(matches!(tx.payload(), TransactionPayload::GenericAccountMessage(_)));
}

#[test]
fn test_snark_account_update_creation() {
    let target = account(1);
    let c = constraints();
    let tx = snark_tx(target, 17, c);
    assert_eq!(tx.target(), Some(target));
    assert_eq!(tx.constraints(), &c);
    match tx.payload() {
        TransactionPayload::SnarkAccountUpdate(payload) => {
            assert_eq!(payload.target(), &target);
            assert_eq!(payload.operation().update().seq_no(), 17);
        }
        _ => panic!("Expected SnarkAccountUpdate"),
    }
}

#[test]
fn test_compute_txid_generic_message() {
    let target = account(1);
    let tx1 = OLTransaction::new(OLTransactionData::new_gam(target, message_payload()), TxProofs::new_empty());
    let tx2 = OLTransaction::new(OLTransactionData::new_gam(target, message_payload()), TxProofs::new_empty());
    assert_eq!(tx1.compute_txid(), tx2.compute_txid());
    let tx3 = OLTransaction::new(OLTransactionData::new_gam(account(9), vec![0xfe]), TxProofs::new_empty());
    assert_ne!(tx1.compute_txid(), tx3.compute_txid());
}

#[test]
fn test_compute_txid_snark_update() {
    let tx1 = snark_tx(account(1), 5, constraints());
    let tx2 = tx1.clone();
    assert_eq!(tx1.compute_txid(), tx2.compute_txid());
    let tx3 = snark_tx(account(1), 777, TxConstraints::unbounded());
    assert_ne!(tx1.compute_txid(), tx3.compute_txid());
}

#[test]
fn test_ssz_roundtrip_generic_message() {
    let tx = generic_tx();
    let encoded = encode_tx(&tx);
    let decoded = decode_tx(&encoded).expect("Should decode");
    assert_eq!(tx, decoded);
}

#[test]
fn test_ssz_roundtrip_snark_update() {
    let tx = snark_tx(account(1), 5, constraints());
    let encoded = encode_tx(&tx);
    let decoded = decode_tx(&encoded).expect("Should decode");
    assert_eq!(tx, decoded);
}

#[test]
fn test_gam_ordering_by_timestamp_micros() {
    let tx = generic_tx();
    let entries: Vec<_> = (1..=3).map(|ts| entry(&tx, MempoolOrderingKey::Gam { timestamp_micros: ts })).collect();
    for i in 0..entries.len() - 1 {
        assert_eq!(entries[i].ordering_key.cmp(&entries[i + 1].ordering_key), Ordering::Less);
    }
}

#[test]
fn test_snark_same_account_orders_by_seq_no() {
    let acct = account(1);
    let tx = snark_tx(acct, 1, constraints());
    let timestamps = [1_000_100u64, 1_000_050, 1_000_025];
    let entries: Vec<_> = timestamps
        .iter()
        .enumerate()
        .map(|(i, &ts)| {
            entry(&tx, MempoolOrderingKey::Snark { account_id: acct, seq_no: i as u64 + 1, timestamp_micros: ts })
        })
        .collect();
    for i in 0..entries.len() - 1 {
        assert_eq!(entries[i].ordering_key.cmp(&entries[i + 1].ordering_key), Ordering::Less);
    }
}

#[test]
fn test_snark_different_accounts_orders_by_timestamp_micros() {
    let account_a = account(1);
    let account_b = account(2);
    let tx = snark_tx(account_a, 1, constraints());
    let entry_a = entry(&tx, MempoolOrderingKey::Snark { account_id: account_a, seq_no: 5, timestamp_micros: 2_000_100 });
    let entry_b = entry(&tx, MempoolOrderingKey::Snark { account_id: account_b, seq_no: 7, timestamp_micros: 1_000_050 });
    assert_eq!(entry_b.ordering_key.cmp(&entry_a.ordering_key), Ordering::Less);
}

#[test]
fn test_mixed_snark_gam_orders_by_timestamp_micros() {
    let acct = account(1);
    let entry_snark = entry(
        &snark_tx(acct, 1, constraints()),
        MempoolOrderingKey::Snark { account_id: acct, seq_no: 1, timestamp_micros: 1_000_050 },
    );
    let entry_gam = entry(&generic_tx(), MempoolOrderingKey::Gam { timestamp_micros: 2_000_100 });
    assert_eq!(entry_snark.ordering_key.cmp(&entry_gam.ordering_key), Ordering::Less);
}

#[test]
fn test_complex_ordering_scenario() {
    let acc_a = account(1);
    let acc_b = account(2);
    let (tx_gam, tx_snark) = (generic_tx(), snark_tx(acc_a, 1, constraints()));
    let mut entries = [
        entry(&tx_gam, MempoolOrderingKey::Gam { timestamp_micros: 1_000_010 }),
        entry(&tx_snark, MempoolOrderingKey::Snark { account_id: acc_a, seq_no: 1, timestamp_micros: 1_000_020 }),
        entry(&tx_gam, MempoolOrderingKey::Gam { timestamp_micros: 1_000_030 }),
        entry(&tx_snark, MempoolOrderingKey::Snark { account_id: acc_a, seq_no: 2, timestamp_micros: 1_000_040 }),
        entry(&tx_snark, MempoolOrderingKey::Snark { account_id: acc_b, seq_no: 1, timestamp_micros: 1_000_050 }),
    ];
    entries.sort_by(|a, b| a.ordering_key.cmp(&b.ordering_key));
    let timestamps: Vec<u64> = entries.iter().map(|e| e.ordering_key.timestamp_micros()).collect();
    assert_eq!(timestamps, vec![1_000_010, 1_000_020, 1_000_030, 1_000_040, 1_000_050]);
}

#[test]
fn ordering_key_is_irreflexive_and_asymmetric() {
    let a = MempoolOrderingKey::Snark { account_id: account(1), seq_no: 3, timestamp_micros: 10 };
    let b = MempoolOrderingKey::Snark { account_id: account(1), seq_no: 4, timestamp_micros: 5 };
    assert!(!a.is_before(&a));
    assert!(a.is_before(&b));
    assert!(!b.is_before(&a));
    assert_eq!(a.cmp(&a), Ordering::Equal);
    assert_eq!(b.cmp(&a), Ordering::Greater);
    assert_eq!(a.partial_cmp(&b), Some(Ordering::Less));
}

#[test]
fn ordering_key_never_ties_distinct_keys() {
    let g = MempoolOrderingKey::Gam { timestamp_micros: 5 };
    let s = MempoolOrderingKey::Snark { account_id: AccountId([1u8; 32]), seq_no: 0, timestamp_micros: 5 };
    assert_eq!(g.cmp(&s), Ordering::Less);
    assert_eq!(s.cmp(&g), Ordering::Greater);
    let a = MempoolOrderingKey::Snark { account_id: account(1), seq_no: 0, timestamp_micros: 5 };
    let b = MempoolOrderingKey::Snark { account_id: account(2), seq_no: 7, timestamp_micros: 5 };
    assert_eq!(a.cmp(&b), Ordering::Less);
    assert_eq!(b.cmp(&a), Ordering::Greater);
    let c = MempoolOrderingKey::Snark { account_id: account(1), seq_no: 0, timestamp_micros: 9 };
    assert_eq!(a.cmp(&c), Ordering::Less);
    let g2 = MempoolOrderingKey::Gam { timestamp_micros: 5 };
    assert_eq!(g.cmp(&g2), Ordering::Equal);
}

#[test]
fn ordering_key_for_transaction() {
    let tx = snark_tx(account(3), 8, constraints());
    assert_eq!(
        MempoolOrderingKey::for_transaction(&tx, 77),
        MempoolOrderingKey::Snark { account_id: account(3), seq_no: 8, timestamp_micros: 77 }
    );
    assert_eq!(MempoolOrderingKey::for_transaction(&generic_tx(), 78), MempoolOrderingKey::Gam { timestamp_micros: 78 });
}
