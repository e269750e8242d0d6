use strata_ol::chain::encoding::encode_tx;
use strata_ol::chain::transaction::{
    OLTransaction, OLTransactionData, SauTxLedgerRefs, SauTxOperationData, SauTxPayload, SauTxProofState,
    SauTxUpdateData, TransactionPayload, TxConstraints, TxEffects, TxProofs,
};
use strata_ol::ids::{AccountId, Buf32, TxId};
use strata_ol::mempool::chain_view::{AccountKind, AccountState, ChainState};
use strata_ol::mempool::error::OLMempoolError;
use strata_ol::mempool::state::MempoolServiceState;
use strata_ol::mempool::stored::MempoolTxData;
use strata_ol::mempool::types::{
    MempoolTxInvalidReason, OLMempoolConfig, OLMempoolRejectReason, DEFAULT_COMMAND_BUFFER_SIZE,
    DEFAULT_MAX_MEMPOOL_BYTES, DEFAULT_MAX_REORG_DEPTH,
};
use strata_ol::mempool::upkeep::{block_txids, reported_txids};

fn account(id: u8) -> AccountId {
    let mut bytes = [0u8; 32];
    bytes[0] = id;
    AccountId(bytes)
}

fn config(max_tx_count: usize, max_tx_size: usize) -> OLMempoolConfig {
    OLMempoolConfig {
        max_tx_count,
        max_tx_size,
        max_mempool_bytes: DEFAULT_MAX_MEMPOOL_BYTES,
        max_reorg_depth: DEFAULT_MAX_REORG_DEPTH,
        command_buffer_size: DEFAULT_COMMAND_BUFFER_SIZE,
    }
}

/// Snark accounts 1 to 5 expecting sequence number 0, message accounts 200 to 202.
fn chain_at(slot: u64) -> ChainState {
    let mut accounts = Vec::new();
    for id in 1..=5u8 {
        accounts.push(AccountState { id: account(id), kind: AccountKind::Snark { seq_no: 0 } });
    }
    for id in 200..=202u8 {
        accounts.push(AccountState { id: account(id), kind: AccountKind::Empty });
    }
    ChainState::new(slot, accounts)
}

fn snark_tx_with_slots(account_id: u8, seq_no: u64, min_slot: Option<u64>, max_slot: Option<u64>) -> OLTransaction {
    let op = SauTxOperationData::new(
        SauTxUpdateData::new(seq_no, SauTxProofState::new(seq_no, Buf32([account_id; 32])), vec![account_id, 1]),
        vec![],
        SauTxLedgerRefs::new_empty(),
    );
    let payload = TransactionPayload::SnarkAccountUpdate(SauTxPayload::new(account(account_id), op));
    OLTransaction::new(
        OLTransactionData::new(payload, TxEffects::empty()).with_constraints(TxConstraints::new(min_slot, max_slot)),
        TxProofs::new(Some(vec![vec![0xab; 16]]), None),
    )
}

fn snark_tx(account_id: u8, seq_no: u64) -> OLTransaction {
    snark_tx_with_slots(account_id, seq_no, None, None)
}

fn generic_tx_for_account(account_id: u8, size: usize) -> OLTransaction {
    OLTransaction::new(OLTransactionData::new_gam(account(account_id), vec![7u8; size]), TxProofs::new_empty())
}

fn seq_no_of(tx: &OLTransaction) -> Option<u64> {
    tx.payload().seq_no()
}

struct Pool {
    state: MempoolServiceState,
    clock: u64,
}

impl Pool {
    fn new(cfg: OLMempoolConfig) -> Pool {
        Pool { state: MempoolServiceState::new(cfg, chain_at(100)), clock: 1_000_000 }
    }

    fn add(&mut self, tx: OLTransaction) -> Result<TxId, OLMempoolError> {
        self.clock += 10;
        self.state.add_transaction_at(tx, self.clock)
    }
}

#[test]
fn test_add_transaction() {
    let mut pool = Pool::new(config(10, 1_000_000));
    let tx1 = snark_tx(1, 0);
    let txid1 = pool.add(tx1.clone()).unwrap();
    assert!(pool.state.contains(&txid1));
    assert_eq!(pool.state.stats().mempool_size(), 1);
    let again = pool.add(tx1).unwrap();
    assert_eq!(txid1, again);
    assert_eq!(pool.state.stats().mempool_size(), 1);
}

#[test]
fn test_add_transaction_capacity_limit() {
    let mut pool = Pool::new(config(2, 1_000_000));
    pool.add(snark_tx(1, 0)).unwrap();
    pool.add(snark_tx(2, 0)).unwrap();
    let result = pool.add(snark_tx(3, 0));
    assert!(matches!(result, Err(OLMempoolError::MempoolFull { current: 2, limit: 2 })));
}

#[test]
fn test_snark_same_account_seq_no_ordering() {
    let mut pool = Pool::new(config(10, 1_000_000));
    for seq in 0..3 {
        pool.add(snark_tx(5, seq)).unwrap();
    }
    let txs = pool.state.handle_get_transactions(3).unwrap();
    assert_eq!(txs.len(), 3);
    let seqs: Vec<u64> = txs.iter().map(|(_, tx)| seq_no_of(tx).unwrap()).collect();
    assert_eq!(seqs, vec![0, 1, 2]);
}

#[test]
fn test_gam_priority_fifo_order() {
    let mut pool = Pool::new(config(10, 1_000_000));
    for id in 200..=202u8 {
        pool.add(generic_tx_for_account(id, 12)).unwrap();
    }
    let txs = pool.state.handle_get_transactions(3).unwrap();
    let targets: Vec<AccountId> = txs.iter().map(|(_, tx)| tx.target().unwrap()).collect();
    assert_eq!(targets, vec![account(200), account(201), account(202)]);
}

#[test]
fn test_snark_priority_different_accounts_same_seq_no() {
    let mut pool = Pool::new(config(10, 1_000_000));
    for id in 1..=3u8 {
        pool.add(snark_tx(id, 0)).unwrap();
    }
    let txs = pool.state.handle_get_transactions(3).unwrap();
    let targets: Vec<AccountId> = txs.iter().map(|(_, tx)| tx.target().unwrap()).collect();
    assert_eq!(targets, vec![account(1), account(2), account(3)]);
}

#[test]
fn test_gap_rejection() {
    let mut pool = Pool::new(config(10, 1_000_000));
    pool.add(snark_tx(1, 0)).unwrap();
    let result = pool.add(snark_tx(1, 2));
    assert!(matches!(result, Err(OLMempoolError::SequenceNumberGap { expected: 1, actual: 2 })));
    assert_eq!(pool.state.stats().mempool_size(), 1);
    pool.add(snark_tx(1, 1)).unwrap();
    pool.add(snark_tx(1, 2)).unwrap();
    assert_eq!(pool.state.stats().mempool_size(), 3);
}

#[test]
fn test_get_transactions_limit() {
    let mut pool = Pool::new(config(10, 1_000_000));
    for id in 1..=5u8 {
        pool.add(snark_tx(id, 0)).unwrap();
    }
    assert_eq!(pool.state.handle_get_transactions(3).unwrap().len(), 3);
    assert_eq!(pool.state.handle_get_transactions(10).unwrap().len(), 5);
}

#[test]
fn test_remove_transactions() {
    let mut pool = Pool::new(config(10, 1_000_000));
    let txid1 = pool.add(snark_tx(1, 0)).unwrap();
    let txid2 = pool.add(snark_tx(2, 0)).unwrap();
    let removed = pool.state.remove_transactions(&[txid1], false);
    assert_eq!(removed, vec![txid1]);
    assert!(!pool.state.contains(&txid1));
    assert!(pool.state.contains(&txid2));
    assert_eq!(pool.state.stats().mempool_size(), 1);
}

#[test]
fn test_remove_nonexistent_transaction() {
    let mut pool = Pool::new(config(10, 1_000_000));
    pool.add(snark_tx(1, 0)).unwrap();
    let removed = pool.state.remove_transactions(&[TxId([0u8; 32])], false);
    assert_eq!(removed.len(), 0);
    assert_eq!(pool.state.len(), 1);
}

#[test]
fn test_load_from_db() {
    let mut pool = Pool::new(config(10, 1_000_000));
    let txs = vec![snark_tx(1, 0), snark_tx(2, 0), snark_tx(1, 1), snark_tx(1, 2)];
    let mut stored = Vec::new();
    let mut ids = Vec::new();
    for tx in txs {
        let ts = pool.clock + 10;
        let id = pool.add(tx.clone()).unwrap();
        ids.push(id);
        stored.push(MempoolTxData::new(id, encode_tx(&tx), ts));
    }
    stored.reverse();
    let mut reloaded = MempoolServiceState::new(config(10, 1_000_000), chain_at(100));
    let dropped = reloaded.load_from_db(stored);
    assert!(dropped.is_empty());
    assert_eq!(reloaded.stats().mempool_size(), 4);
    for id in &ids {
        assert!(reloaded.contains(id));
    }
    let acct1 = reloaded.account_state(&account(1)).unwrap();
    assert_eq!(acct1.txids.len(), 3);
    assert_eq!(acct1.seq_no_range(), Some((0, 2)));
    let acct2 = reloaded.account_state(&account(2)).unwrap();
    assert_eq!(acct2.txids.len(), 1);
    assert_eq!(acct2.seq_no_range(), Some((0, 0)));
    let order: Vec<TxId> = reloaded.handle_get_transactions(10).unwrap().into_iter().map(|(id, _)| id).collect();
    let first: Vec<TxId> = pool.state.handle_get_transactions(10).unwrap().into_iter().map(|(id, _)| id).collect();
    assert_eq!(order, first);
}

#[test]
fn load_from_db_drops_malformed_and_invalid_records() {
    let good = snark_tx(1, 0);
    let gap = snark_tx(2, 5);
    let good_id = good.compute_txid();
    let gap_id = gap.compute_txid();
    let stored = vec![
        MempoolTxData::new(good_id, encode_tx(&good), 10),
        MempoolTxData::new(TxId([9u8; 32]), vec![1, 2, 3], 11),
        MempoolTxData::new(TxId([8u8; 32]), encode_tx(&good), 12),
        MempoolTxData::new(gap_id, encode_tx(&gap), 13),
    ];
    let mut state = MempoolServiceState::new(config(10, 1_000_000), chain_at(100));
    let dropped = state.load_from_db(stored);
    assert_eq!(dropped, vec![TxId([9u8; 32]), TxId([8u8; 32]), gap_id]);
    assert_eq!(state.len(), 1);
    assert!(state.contains(&good_id));
    assert_eq!(state.stats().enqueues_accepted(), 1);
    assert_eq!(state.stats().enqueues_rejected(), 1);
    assert_eq!(state.stats().rejects_by_reason().get(OLMempoolRejectReason::SequenceNumberGap), 1);
}

#[test]
fn test_handle_get_transactions_ordering() {
    let mut pool = Pool::new(config(100, 10_000_000));
    let txid1 = pool.add(snark_tx(1, 0)).unwrap();
    let txid2 = pool.add(snark_tx(2, 0)).unwrap();
    let txid3 = pool.add(snark_tx(1, 1)).unwrap();
    let txid4 = pool.add(snark_tx(3, 0)).unwrap();
    let ids: Vec<TxId> = pool.state.handle_get_transactions(10).unwrap().into_iter().map(|(id, _)| id).collect();
    assert_eq!(ids, vec![txid1, txid2, txid3, txid4]);
    let ids: Vec<TxId> = pool.state.handle_get_transactions(2).unwrap().into_iter().map(|(id, _)| id).collect();
    assert_eq!(ids, vec![txid1, txid2]);
}

#[test]
fn test_stats_updates() {
    let mut pool = Pool::new(config(10, 1_000_000));
    assert_eq!(pool.state.stats().mempool_size(), 0);
    assert_eq!(pool.state.stats().total_bytes(), 0);
    assert_eq!(pool.state.stats().enqueues_accepted(), 0);
    let tx1 = snark_tx(1, 0);
    let tx1_size = encode_tx(&tx1).len();
    pool.add(tx1.clone()).unwrap();
    assert_eq!(pool.state.stats().mempool_size(), 1);
    assert_eq!(pool.state.stats().total_bytes(), tx1_size);
    assert_eq!(pool.state.stats().enqueues_accepted(), 1);
    let tx2 = snark_tx(2, 0);
    let tx2_size = encode_tx(&tx2).len();
    pool.add(tx2).unwrap();
    assert_eq!(pool.state.stats().mempool_size(), 2);
    assert_eq!(pool.state.stats().total_bytes(), tx1_size + tx2_size);
    assert_eq!(pool.state.stats().enqueues_accepted(), 2);
    pool.add(tx1).unwrap();
    assert_eq!(pool.state.stats().mempool_size(), 2);
    assert_eq!(pool.state.stats().enqueues_accepted(), 2);
}

#[test]
fn test_stats_rejections() {
    let mut pool = Pool::new(config(2, 1_000_000));
    let initial = pool.state.stats();
    assert_eq!(initial.enqueues_rejected(), 0);
    assert_eq!(initial.rejects_by_reason().get(OLMempoolRejectReason::MempoolFull), 0);
    assert_eq!(initial.rejects_by_reason().get(OLMempoolRejectReason::TransactionTooLarge), 0);

    // Fill the mempool to capacity, each transaction for a different account.
    pool.add(snark_tx(1, 0)).unwrap();
    pool.add(snark_tx(2, 0)).unwrap();
    // One more when full.
    assert!(pool.add(snark_tx(3, 0)).is_err());
    let after_full = pool.state.stats();
    assert_eq!(after_full.enqueues_accepted(), 2);
    assert_eq!(after_full.enqueues_rejected(), 1);
    assert_eq!(after_full.rejects_by_reason().get(OLMempoolRejectReason::MempoolFull), 1);

    // A transaction over the size limit.
    let mut tiny = Pool::new(config(10, 50));
    assert!(tiny.add(generic_tx_for_account(200, 99)).is_err());
    let after_large = tiny.state.stats();
    assert_eq!(after_large.enqueues_accepted(), 0);
    assert_eq!(after_large.enqueues_rejected(), 1);
    assert_eq!(after_large.rejects_by_reason().get(OLMempoolRejectReason::TransactionTooLarge), 1);
}

#[test]
fn duplicate_submission_is_counted_as_rejection() {
    let mut pool = Pool::new(config(2, 1_000_000));
    let tx1 = snark_tx(1, 0);
    pool.add(tx1.clone()).unwrap();
    pool.add(tx1).unwrap();
    assert_eq!(pool.state.stats().rejects_by_reason().get(OLMempoolRejectReason::Duplicate), 1);
    assert_eq!(pool.state.stats().enqueues_rejected(), 1);
    assert_eq!(pool.state.stats().mempool_size(), 1);
}

#[test]
fn validation_failure_is_counted_under_its_reason() {
    let mut pool = Pool::new(config(10, 1_000_000));
    pool.add(snark_tx(1, 0)).unwrap();
    assert!(matches!(pool.add(snark_tx(1, 2)), Err(OLMempoolError::SequenceNumberGap { .. })));
    let stats = pool.state.stats();
    assert_eq!(stats.enqueues_rejected(), 1);
    assert_eq!(stats.rejects_by_reason().get(OLMempoolRejectReason::SequenceNumberGap), 1);
    assert_eq!(stats.mempool_size(), 1);
}

#[test]
fn test_remove_with_gap_cascade() {
    let mut pool = Pool::new(config(10, 1_000_000));
    let txid0 = pool.add(snark_tx(1, 0)).unwrap();
    let txid1 = pool.add(snark_tx(1, 1)).unwrap();
    let txid2 = pool.add(snark_tx(1, 2)).unwrap();
    assert_eq!(pool.state.account_state(&account(1)).unwrap().seq_no_range(), Some((0, 2)));
    assert!(matches!(pool.add(snark_tx(1, 4)), Err(OLMempoolError::SequenceNumberGap { .. })));
    let removed = pool.state.remove_transactions(&[txid1], true);
    assert_eq!(removed, vec![txid1, txid2]);
    assert_eq!(pool.state.stats().mempool_size(), 1);
    assert!(pool.state.contains(&txid0));
    assert_eq!(pool.state.account_state(&account(1)).unwrap().seq_nos, vec![0]);
    assert!(matches!(pool.add(snark_tx(1, 4)), Err(OLMempoolError::SequenceNumberGap { .. })));
    assert!(pool.add(snark_tx(1, 1)).is_ok());
}

#[test]
fn test_remove_transactions_no_cascade() {
    let mut pool = Pool::new(config(10, 1_000_000));
    let txid0 = pool.add(snark_tx(1, 0)).unwrap();
    let txid1 = pool.add(snark_tx(1, 1)).unwrap();
    let txid2 = pool.add(snark_tx(1, 2)).unwrap();
    let removed = pool.state.remove_transactions(&[txid1], false);
    assert_eq!(removed, vec![txid1]);
    assert!(pool.state.contains(&txid0));
    assert!(pool.state.contains(&txid2));
    let st = pool.state.account_state(&account(1)).unwrap();
    assert_eq!(st.seq_nos, vec![0, 2]);
    assert_eq!(st.seq_no_range(), Some((0, 2)));
    assert!(pool.add(snark_tx(1, 3)).is_ok());
    assert!(pool.add(snark_tx(1, 1)).is_ok());
    let mut seqs = pool.state.account_state(&account(1)).unwrap().seq_nos;
    seqs.sort();
    assert_eq!(seqs, vec![0, 1, 2, 3]);
}

#[test]
fn test_revalidation_removes_expired_with_cascade() {
    let mut pool = Pool::new(config(10, 1_000_000));
    let txid0 = pool.add(snark_tx_with_slots(1, 0, None, Some(120))).unwrap();
    let txid1 = pool.add(snark_tx_with_slots(1, 1, None, Some(110))).unwrap();
    let txid2 = pool.add(snark_tx_with_slots(1, 2, None, Some(120))).unwrap();
    pool.state.set_chain_state(chain_at(111));
    let invalid = pool.state.revalidate_all_transactions();
    assert_eq!(invalid, vec![txid1]);
    pool.state.remove_transactions(&invalid, true);
    assert_eq!(pool.state.stats().mempool_size(), 1);
    assert!(pool.state.contains(&txid0));
    assert!(!pool.state.contains(&txid2));
}

#[test]
fn test_transaction_size_limit() {
    let mut pool = Pool::new(config(10, 200));
    let small = generic_tx_for_account(200, 10);
    assert!(pool.add(small).is_ok());
    let big = generic_tx_for_account(201, 500);
    let size = encode_tx(&big).len();
    assert!(matches!(pool.add(big), Err(OLMempoolError::TransactionTooLarge { size: s, limit: 200 }) if s == size));
    assert_eq!(pool.state.stats().rejects_by_reason().get(OLMempoolRejectReason::TransactionTooLarge), 1);
}

#[test]
fn test_transaction_replacement() {
    let mut pool = Pool::new(config(10, 1_000_000));
    let first = snark_tx_with_slots(1, 0, None, Some(500));
    let second = snark_tx_with_slots(1, 0, None, Some(600));
    let id1 = pool.add(first).unwrap();
    assert_eq!(pool.state.find_account_tx_with_same_seqno(&second), Some(id1));
    let id2 = pool.add(second).unwrap();
    assert_ne!(id1, id2);
    assert!(!pool.state.contains(&id1));
    assert!(pool.state.contains(&id2));
    assert_eq!(pool.state.len(), 1);
}

#[test]
fn test_transaction_duplicate_idempotent() {
    let mut pool = Pool::new(config(10, 1_000_000));
    let tx = snark_tx(3, 0);
    let id = pool.add(tx.clone()).unwrap();
    for _ in 0..3 {
        assert_eq!(pool.add(tx.clone()).unwrap(), id);
    }
    assert_eq!(pool.state.len(), 1);
    assert_eq!(pool.state.stats().rejects_by_reason().get(OLMempoolRejectReason::Duplicate), 3);
}

#[test]
fn test_replay_attack_rejected() {
    let mut pool = Pool::new(config(10, 1_000_000));
    let mut chain = chain_at(100);
    chain = ChainState::new(chain.cur_slot(), vec![AccountState { id: account(1), kind: AccountKind::Snark { seq_no: 3 } }]);
    pool.state.set_chain_state(chain);
    assert!(matches!(
        pool.add(snark_tx(1, 2)),
        Err(OLMempoolError::UsedSequenceNumber { expected: 3, actual: 2, .. })
    ));
    assert!(pool.add(snark_tx(1, 3)).is_ok());
}

#[test]
fn report_invalid_removes_only_invalid_ones() {
    let mut pool = Pool::new(config(10, 1_000_000));
    let a0 = pool.add(snark_tx(1, 0)).unwrap();
    let a1 = pool.add(snark_tx(1, 1)).unwrap();
    let b0 = pool.add(snark_tx(2, 0)).unwrap();
    pool.state.handle_report_invalid_transactions(&[(a0, MempoolTxInvalidReason::Invalid), (b0, MempoolTxInvalidReason::Failed)]);
    assert!(!pool.state.contains(&a0));
    assert!(!pool.state.contains(&a1));
    assert!(pool.state.contains(&b0));
}

#[test]
fn new_block_removes_included_and_revalidates() {
    let mut pool = Pool::new(config(10, 1_000_000));
    let t0 = snark_tx(1, 0);
    let t1 = snark_tx(1, 1);
    let g = generic_tx_for_account(200, 4);
    let id0 = pool.add(t0.clone()).unwrap();
    let id1 = pool.add(t1).unwrap();
    let idg = pool.add(g).unwrap();
    let included = block_txids(&[t0.with_accumulator_proofs(Some(vec![vec![1]]))]);
    assert_eq!(included, vec![id0]);
    pool.state.handle_new_block(&included);
    assert!(!pool.state.contains(&id0));
    assert!(pool.state.contains(&id1));
    assert!(pool.state.contains(&idg));
    let mut chain = chain_at(101);
    chain = ChainState::new(chain.cur_slot(), vec![AccountState { id: account(1), kind: AccountKind::Snark { seq_no: 1 } }]);
    pool.state.handle_chain_update(chain, &[vec![]]);
    assert!(pool.state.contains(&id1));
    assert!(!pool.state.contains(&idg));
}

#[test]
fn byte_limit_is_respected() {
    let tx1 = snark_tx(1, 0);
    let size = encode_tx(&tx1).len();
    let cfg = OLMempoolConfig { max_mempool_bytes: size + 10, ..config(10, 1_000_000) };
    let mut pool = Pool { state: MempoolServiceState::new(cfg, chain_at(100)), clock: 0 };
    pool.add(tx1).unwrap();
    let tx2 = snark_tx(2, 0);
    let size2 = encode_tx(&tx2).len();
    match pool.add(tx2) {
        Err(OLMempoolError::MempoolByteLimitExceeded { current, limit }) => {
            assert_eq!(current, size + size2);
            assert_eq!(limit, size + 10);
        }
        other => panic!("expected the byte limit, got {:?}", other),
    }
    assert!(pool.state.stats().total_bytes() <= size + 10);
    assert_eq!(pool.state.stats().rejects_by_reason().get(OLMempoolRejectReason::MempoolFull), 1);
}

#[test]
fn replacement_keeps_one_update_per_sequence_number() {
    let mut pool = Pool::new(config(10, 1_000_000));
    pool.add(snark_tx_with_slots(1, 0, None, Some(500))).unwrap();
    pool.add(snark_tx_with_slots(1, 0, None, Some(600))).unwrap();
    pool.add(snark_tx_with_slots(1, 0, None, Some(700))).unwrap();
    let st = pool.state.account_state(&account(1)).unwrap();
    assert_eq!(st.seq_nos, vec![0]);
    assert_eq!(pool.state.len(), 1);
}

#[test]
fn rejected_counter_is_the_total_over_reasons_and_nothing_is_evicted() {
    let mut pool = Pool::new(config(2, 1_000_000));
    let tx1 = snark_tx(1, 0);
    pool.add(tx1.clone()).unwrap();
    pool.add(tx1).unwrap();
    assert!(pool.add(snark_tx(1, 5)).is_err());
    pool.add(snark_tx(2, 0)).unwrap();
    assert!(pool.add(snark_tx(3, 0)).is_err());
    let stats = pool.state.stats();
    assert_eq!(stats.enqueues_rejected(), 3);
    assert_eq!(stats.rejects_by_reason().total(), stats.enqueues_rejected());
    assert_eq!(stats.enqueues_accepted(), 2);
    assert_eq!(stats.evictions(), 0);
}

#[test]
fn planned_removals_match_the_removal() {
    let mut pool = Pool::new(config(10, 1_000_000));
    let txid0 = pool.add(snark_tx(1, 0)).unwrap();
    let txid1 = pool.add(snark_tx(1, 1)).unwrap();
    let txid2 = pool.add(snark_tx(1, 2)).unwrap();
    let reports = vec![(txid1, MempoolTxInvalidReason::Invalid), (txid0, MempoolTxInvalidReason::Failed)];
    let ids = reported_txids(&reports);
    assert_eq!(ids, vec![txid1]);
    let plan = pool.state.planned_removals(&ids, true);
    assert_eq!(plan, vec![txid1, txid2]);
    assert_eq!(pool.state.len(), 3);
    pool.state.handle_report_invalid_transactions(&reports);
    assert_eq!(pool.state.len(), 1);
    assert!(pool.state.contains(&txid0));
}
