use strata_ol::da::{
    AccountInit, AccountStateModel, AccountTypeId, DaAccumulationError, DaLimits, DaMessage, EpochDaAccumulator,
    InboxMessage, InvalidLedgerDiff, LedgerDiff, NewAccountEntry, ProofStateModel, SnarkAccountInit, SnarkStateModel,
    validate_ledger_entries, AccountDiff, AccountDiffEntry,
};
use strata_ol::ids::AccountId;

fn acct(b: u8) -> AccountId {
    AccountId([b; 32])
}

fn limits() -> DaLimits {
    DaLimits { max_vk_bytes: 8, max_msg_payload_bytes: 16, max_inbox_entries: 2 }
}

fn snark_state(serial: u32, balance: u64, seq_no: u64, root: u8, idx: u64) -> AccountStateModel {
    AccountStateModel {
        serial,
        balance,
        ty: AccountTypeId::Snark,
        snark: Some(SnarkStateModel {
            seq_no,
            proof_state: ProofStateModel { inner_state_root: [root; 32], next_inbox_msg_idx: idx },
        }),
    }
}

fn empty_state(serial: u32, balance: u64) -> AccountStateModel {
    AccountStateModel { serial, balance, ty: AccountTypeId::Empty, snark: None }
}

fn msg(to: u8, from: u8, len: usize) -> InboxMessage {
    InboxMessage { account_id: acct(to), entry: DaMessage { source: acct(from), incl_epoch: 3, value: 5, data: vec![1; len] } }
}

#[test]
fn new_accounts_come_out_in_serial_order() {
    let mut acc = EpochDaAccumulator::new(limits());
    assert!(acc.record_new_account(10, 11, acct(2)).is_ok());
    assert!(acc.record_new_account(99, 10, acct(1)).is_ok());
    let inits = vec![
        (acct(1), AccountInit { balance: 7, snark: None }),
        (acct(2), AccountInit { balance: 8, snark: Some(SnarkAccountInit { initial_state_root: [0; 32], update_vk: vec![1, 2] }) }),
    ];
    let diff = acc.build_ledger_diff(&inits).unwrap();
    let ids: Vec<AccountId> = diff.new_accounts.iter().map(|e| e.account_id).collect();
    assert_eq!(ids, vec![acct(1), acct(2)]);
    assert!(diff.account_diffs.is_empty());
}

#[test]
fn duplicate_new_account_is_refused() {
    let mut acc = EpochDaAccumulator::new(limits());
    assert!(acc.record_new_account(0, 0, acct(1)).is_ok());
    assert_eq!(acc.record_new_account(0, 1, acct(1)), Err(DaAccumulationError::DuplicateNewAccountId(acct(1))));
}

#[test]
fn serial_gaps_are_refused() {
    let mut acc = EpochDaAccumulator::new(limits());
    acc.record_new_account(5, 6, acct(1)).unwrap();
    assert_eq!(acc.build_ledger_diff(&[]).err(), Some(DaAccumulationError::NewAccountSerialGap(5, 6)));

    let mut acc = EpochDaAccumulator::new(limits());
    acc.record_new_account(5, 5, acct(1)).unwrap();
    acc.record_new_account(5, 7, acct(2)).unwrap();
    assert_eq!(acc.build_ledger_diff(&[]).err(), Some(DaAccumulationError::NewAccountSerialGap(6, 7)));
}

#[test]
fn missing_init_and_large_vk_are_refused() {
    let mut acc = EpochDaAccumulator::new(limits());
    acc.record_new_account(0, 0, acct(1)).unwrap();
    assert_eq!(acc.build_ledger_diff(&[]).err(), Some(DaAccumulationError::MissingAccountState(acct(1))));
    let inits = vec![(acct(1), AccountInit { balance: 0, snark: Some(SnarkAccountInit { initial_state_root: [0; 32], update_vk: vec![0; 9] }) })];
    assert_eq!(acc.build_ledger_diff(&inits).err(), Some(DaAccumulationError::VkTooLarge { provided: 9, max: 8 }));
}

#[test]
fn account_updates_become_sorted_diffs() {
    let mut acc = EpochDaAccumulator::new(limits());
    acc.track_account(acct(1), &snark_state(4, 100, 0, 1, 0));
    acc.track_account(acct(2), &empty_state(3, 50));
    acc.track_account(acct(3), &empty_state(9, 10));
    // Tracking again keeps the first state.
    acc.track_account(acct(2), &empty_state(3, 999));
    assert!(acc.record_account_update(acct(1), &snark_state(4, 90, 1, 2, 1), &[msg(1, 2, 4)], &[true], Some(vec![7])).is_ok());
    assert!(acc.record_account_update(acct(2), &empty_state(3, 60), &[], &[], None).is_ok());
    // Account 3 is untouched after all: its diff is left out.
    let diff = acc.build_ledger_diff(&[]).unwrap();
    assert!(diff.new_accounts.is_empty());
    let serials: Vec<u32> = diff.account_diffs.iter().map(|e| e.account_serial).collect();
    assert_eq!(serials, vec![3, 4]);
    assert_eq!(diff.account_diffs[0].diff.balance, (50, 60));
    assert!(diff.account_diffs[0].diff.snark.is_none());
    let sn = diff.account_diffs[1].diff.snark.as_ref().unwrap();
    assert_eq!(diff.account_diffs[1].diff.balance, (100, 90));
    assert_eq!(sn.seq_no, (0, 1));
    assert_eq!(sn.inner_state, Some([2; 32]));
    assert_eq!(sn.next_inbox_msg_idx, (0, 1));
    assert_eq!(sn.inbox.len(), 1);
    assert_eq!(sn.extra_data, Some(vec![7]));
}

#[test]
fn new_accounts_have_no_diff_and_serials_stay_unique() {
    let mut acc = EpochDaAccumulator::new(limits());
    acc.record_new_account(4, 4, acct(1)).unwrap();
    acc.track_account(acct(1), &empty_state(4, 0));
    acc.record_account_update(acct(1), &empty_state(4, 10), &[], &[], None).unwrap();
    acc.track_account(acct(2), &empty_state(4, 0));
    acc.record_account_update(acct(2), &empty_state(4, 10), &[], &[], None).unwrap();
    let inits = vec![(acct(1), AccountInit { balance: 10, snark: None })];
    assert_eq!(acc.build_ledger_diff(&inits).err(), Some(DaAccumulationError::DuplicateAccountSerial(4)));
}

#[test]
fn update_errors_leave_the_accumulator_unchanged() {
    let mut acc = EpochDaAccumulator::new(limits());
    assert_eq!(
        acc.record_account_update(acct(1), &empty_state(0, 0), &[], &[], None),
        Err(DaAccumulationError::MissingPreState(acct(1)))
    );
    acc.track_account(acct(1), &snark_state(0, 100, 0, 1, 0));
    assert_eq!(
        acc.record_account_update(acct(1), &empty_state(0, 1), &[], &[], None),
        Err(DaAccumulationError::AccountTypeChanged { account_id: acct(1), expected: AccountTypeId::Snark, actual: AccountTypeId::Empty })
    );
    let post = snark_state(0, 1, 0, 1, 0);
    assert_eq!(
        acc.record_account_update(acct(1), &post, &[msg(2, 3, 1)], &[true], None),
        Err(DaAccumulationError::InboxAccountMismatch { expected: acct(1), actual: acct(2) })
    );
    assert_eq!(
        acc.record_account_update(acct(1), &post, &[msg(1, 3, 17)], &[true], None),
        Err(DaAccumulationError::MessagePayloadTooLarge { provided: 17, max: 16 })
    );
    assert_eq!(
        acc.record_account_update(acct(1), &post, &[msg(1, 3, 1)], &[false], None),
        Err(DaAccumulationError::MessageSourceMissing(acct(3)))
    );
    assert_eq!(
        acc.record_account_update(acct(1), &post, &[msg(1, 3, 1), msg(1, 3, 1), msg(1, 3, 1)], &[true, true, true], None),
        Err(DaAccumulationError::InboxBufferFull { account_id: acct(1), max: 2 })
    );
    // Nothing was recorded: the account is unchanged, so no diff.
    let diff = acc.build_ledger_diff(&[]).unwrap();
    assert!(diff.account_diffs.is_empty());

    acc.track_account(acct(5), &empty_state(1, 0));
    assert_eq!(
        acc.record_account_update(acct(5), &empty_state(1, 0), &[msg(5, 3, 1)], &[true], None),
        Err(DaAccumulationError::MissingSnarkState(acct(5)))
    );
}

#[test]
fn estimated_size_counts_accounts_and_messages() {
    let mut acc = EpochDaAccumulator::new(limits());
    assert_eq!(acc.estimated_encoded_size(), 7);
    acc.record_new_account(0, 0, acct(9)).unwrap();
    acc.track_account(acct(1), &snark_state(4, 100, 0, 1, 0));
    assert_eq!(acc.estimated_encoded_size(), 7 + (75 + 8) + 61);
    acc.record_account_update(acct(1), &snark_state(4, 100, 0, 1, 0), &[msg(1, 2, 4)], &[true], None).unwrap();
    assert_eq!(acc.estimated_encoded_size(), 7 + (75 + 8) + 61 + 2 + 46 + 4);
}

#[test]
fn built_new_accounts_count_up_from_the_expected_serial() {
    let mut acc = EpochDaAccumulator::new(limits());
    acc.record_new_account(20, 22, acct(3)).unwrap();
    acc.record_new_account(20, 20, acct(1)).unwrap();
    acc.record_new_account(20, 21, acct(2)).unwrap();
    let inits: Vec<(AccountId, AccountInit)> =
        (1..=3u8).map(|b| (acct(b), AccountInit { balance: b as u64, snark: None })).collect();
    let diff = acc.build_ledger_diff(&inits).unwrap();
    let got: Vec<(AccountId, u64)> = diff.new_accounts.iter().map(|e| (e.account_id, e.init.balance)).collect();
    assert_eq!(got, vec![(acct(1), 1), (acct(2), 2), (acct(3), 3)]);
}

#[test]
fn sequence_number_jumps_beyond_the_counter_are_refused() {
    let mut acc = EpochDaAccumulator::new(limits());
    acc.track_account(acct(1), &snark_state(4, 100, 0, 1, 0));
    acc.record_account_update(acct(1), &snark_state(4, 100, 70_000, 1, 0), &[], &[], None).unwrap();
    assert_eq!(acc.build_ledger_diff(&[]).err(), Some(DaAccumulationError::CounterOutOfRange(acct(1))));

    let mut acc = EpochDaAccumulator::new(limits());
    acc.track_account(acct(1), &snark_state(4, 100, 5, 1, 9));
    acc.record_account_update(acct(1), &snark_state(4, 100, 6, 1, 3), &[], &[], None).unwrap();
    assert_eq!(acc.build_ledger_diff(&[]).err(), Some(DaAccumulationError::CounterOutOfRange(acct(1))));

    let mut acc = EpochDaAccumulator::new(limits());
    acc.track_account(acct(1), &snark_state(4, 100, 0, 1, 0));
    acc.record_account_update(acct(1), &snark_state(4, 100, 65_535, 1, 0), &[], &[], None).unwrap();
    assert!(acc.build_ledger_diff(&[]).is_ok());
}

fn diff_entry(serial: u32) -> AccountDiffEntry {
    AccountDiffEntry { account_serial: serial, diff: AccountDiff { balance: (1, 2), snark: None } }
}

fn new_entry(b: u8) -> NewAccountEntry {
    NewAccountEntry { account_id: acct(b), init: AccountInit { balance: 0, snark: None } }
}

#[test]
fn ledger_entries_are_validated() {
    let ok = LedgerDiff { new_accounts: vec![new_entry(1), new_entry(2)], account_diffs: vec![diff_entry(1), diff_entry(4)] };
    assert_eq!(validate_ledger_entries(5, &ok), Ok(()));
    let dup = LedgerDiff { new_accounts: vec![new_entry(1), new_entry(1)], account_diffs: vec![] };
    assert_eq!(validate_ledger_entries(5, &dup), Err(InvalidLedgerDiff::DuplicateNewAccountId));
    let overflow = LedgerDiff { new_accounts: vec![new_entry(1), new_entry(2)], account_diffs: vec![] };
    assert_eq!(validate_ledger_entries(u32::MAX, &overflow), Err(InvalidLedgerDiff::SerialRangeOverflow));
    let out_of_range = LedgerDiff { new_accounts: vec![], account_diffs: vec![diff_entry(1), diff_entry(5)] };
    assert_eq!(validate_ledger_entries(5, &out_of_range), Err(InvalidLedgerDiff::DiffSerialOutOfRange));
    let unordered = LedgerDiff { new_accounts: vec![], account_diffs: vec![diff_entry(3), diff_entry(3)] };
    assert_eq!(validate_ledger_entries(5, &unordered), Err(InvalidLedgerDiff::DiffSerialsNotIncreasing));
}
