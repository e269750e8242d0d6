use strata_ol::ids::Buf32;
use strata_ol::sequencer::checkpoint_duty::{checkpoint_duty_step, intent_index, CheckpointDutyStep, SequencerDutyError};
use strata_ol::sequencer::duty::{
    assemble_duties,
    BlockSigningDuty, BlockTemplate, CheckpointSigningDuty, Duty, Expiry, PayloadSigningDuty,
};
use strata_ol::sequencer::payload::{pending_payload_duties, scan_payload_entry, PayloadEntry, PayloadEntryStatus, PayloadScan};
use strata_ol::sequencer::rpc::{RpcDuty, RpcDutyConversionError};
use strata_ol::sequencer::tracker::{DutyTracker, SequencerEvent};

fn now_millis() -> u64 {
    std::time::SystemTime::now().duration_since(std::time::UNIX_EPOCH).unwrap().as_millis() as u64
}

fn create_test_template(timestamp: u64, slot: u64, epoch: u32) -> BlockTemplate {
    let mut id = [0u8; 32];
    id[..8].copy_from_slice(&slot.to_le_bytes());
    id[8..16].copy_from_slice(&timestamp.to_le_bytes());
    BlockTemplate::new(Buf32(id), timestamp, slot, epoch, vec![1, 2, 3], vec![4, 5])
}

fn checkpoint_duty(epoch: u32) -> CheckpointSigningDuty {
    let payload = vec![epoch as u8, 0xcc, 0xdd];
    let mut hash = [0u8; 32];
    hash[0] = epoch as u8;
    hash[1] = 0xcc;
    CheckpointSigningDuty::new(epoch, payload, Buf32(hash))
}

#[test]
fn test_block_signing_duty_is_ready() {
    let now = now_millis();
    let past_duty = BlockSigningDuty::new(create_test_template(now - 1000, 1, 0));
    assert!(past_duty.is_ready(), "Past timestamp should be ready");
    let future_duty = BlockSigningDuty::new(create_test_template(now + 10000, 2, 0));
    assert!(!future_duty.is_ready(), "Future timestamp should not be ready");
    let now_duty = BlockSigningDuty::new(create_test_template(now, 3, 0));
    assert!(now_duty.is_ready(), "Current timestamp should be ready");
}

#[test]
fn test_block_signing_duty_wait_duration() {
    let now = now_millis();
    let past_duty = BlockSigningDuty::new(create_test_template(now - 1000, 1, 0));
    assert_eq!(past_duty.wait_duration(), None, "Past timestamp should have no wait");
    let future_millis = 5000u64;
    let future_duty = BlockSigningDuty::new(create_test_template(now + future_millis, 2, 0));
    match future_duty.wait_duration() {
        Some(wait_millis) => assert!(
            wait_millis >= future_millis - 100 && wait_millis <= future_millis + 100,
            "Wait duration should be approximately {} ms, got {} ms",
            future_millis,
            wait_millis
        ),
        None => panic!("Future timestamp should have a wait duration"),
    }
}

#[test]
fn test_block_signing_duty_accessors() {
    let template = create_test_template(1000, 42, 5);
    let duty = BlockSigningDuty::new(template.clone());
    assert_eq!(duty.template_id(), template.template_id);
    assert_eq!(duty.slot(), 42);
    assert_eq!(duty.target_timestamp(), 1000);
}

#[test]
fn test_duty_generate_id_for_block() {
    let template = create_test_template(1000, 1, 0);
    let duty = Duty::SignBlock(BlockSigningDuty::new(template.clone()));
    assert_eq!(duty.generate_id(), template.template_id);
}

#[test]
fn test_duty_generate_id_for_checkpoint() {
    let c = checkpoint_duty(0);
    let expected = Buf32(c.hash());
    let duty = Duty::SignCheckpoint(c);
    assert_eq!(duty.generate_id(), expected);
}

#[test]
fn test_duty_expiry() {
    let block_duty = Duty::SignBlock(BlockSigningDuty::new(create_test_template(1000, 1, 0)));
    assert!(matches!(block_duty.expiry(), Expiry::NextBlock));
    let ep = 5;
    let checkpoint = Duty::SignCheckpoint(checkpoint_duty(ep));
    assert!(matches!(checkpoint.expiry(), Expiry::CheckpointFinalized(epoch) if epoch == ep));
    let payload = Duty::SignPayload(PayloadSigningDuty::new(3, Buf32([1; 32])));
    assert!(matches!(payload.expiry(), Expiry::Never));
}

#[test]
fn test_checkpoint_signing_duty_accessors() {
    let ep = 7;
    let duty = checkpoint_duty(ep);
    assert_eq!(duty.epoch(), ep);
    let mut expected = [0u8; 32];
    expected[0] = 7;
    expected[1] = 0xcc;
    assert_eq!(duty.hash(), expected);
    assert_eq!(duty.checkpoint(), &vec![7u8, 0xcc, 0xdd]);
}

#[test]
fn wait_duration_at_fixed_times() {
    let duty = BlockSigningDuty::new(create_test_template(5_000, 1, 0));
    assert_eq!(duty.wait_duration_at(4_000), Some(1_000));
    assert_eq!(duty.wait_duration_at(5_000), None);
    assert_eq!(duty.wait_duration_at(9_000), None);
    assert!(!duty.is_ready_at(4_999));
    assert!(duty.is_ready_at(5_000));
}

#[test]
fn process_tick_deduplicates_duties() {
    let mut tracker = DutyTracker::new();
    let duty = Duty::SignBlock(BlockSigningDuty::new(create_test_template(1, 1, 0)));
    let first = tracker.process_tick(&[], vec![duty.clone()]);
    assert_eq!(first.len(), 1);
    assert_eq!(tracker.status(0, 0).duties_dispatched(), 1);
    let second = tracker.process_tick(&[], vec![duty]);
    assert!(second.is_empty());
    assert_eq!(tracker.status(0, 0).duties_dispatched(), 1);
}

#[test]
fn failed_duty_is_requeued() {
    let mut tracker = DutyTracker::new();
    let duty = Duty::SignBlock(BlockSigningDuty::new(create_test_template(2, 2, 0)));
    let duty_id = duty.generate_id();
    assert_eq!(tracker.process_tick(&[], vec![duty.clone()]).len(), 1);
    assert!(tracker.has_seen(&duty_id));
    let again = tracker.process_tick(&[duty_id], vec![duty]);
    assert_eq!(again.len(), 1);
    assert_eq!(tracker.status(1, 1).duties_dispatched(), 2);
    assert_eq!(tracker.status(1, 1).failed_duty_count(), 1);
}

#[test]
fn duplicates_within_one_poll_are_dispatched_once() {
    let mut tracker = DutyTracker::new();
    let a = Duty::SignPayload(PayloadSigningDuty::new(1, Buf32([1; 32])));
    let b = Duty::SignPayload(PayloadSigningDuty::new(2, Buf32([2; 32])));
    let out = tracker.dispatch(vec![a.clone(), b, a]);
    assert_eq!(out.len(), 2);
}

#[test]
fn generation_tick_reports_tip_changes() {
    let mut tracker = DutyTracker::new();
    assert!(!tracker.on_generation_tick(None));
    assert!(tracker.on_generation_tick(Some(Buf32([1; 32]))));
    assert!(!tracker.on_generation_tick(Some(Buf32([1; 32]))));
    assert!(tracker.on_generation_tick(Some(Buf32([2; 32]))));
    assert!(tracker.on_generation_tick(None));
    assert_ne!(SequencerEvent::Tick, SequencerEvent::GenerationTick);
}

#[test]
fn payload_scan_stops_at_finalized_or_missing() {
    let pending = |b: u8, signed: bool| {
        Some(PayloadEntry { status: PayloadEntryStatus::PendingPayloadSign(Buf32([b; 32])), has_signature: signed })
    };
    let entries = vec![
        pending(9, false),
        Some(PayloadEntry { status: PayloadEntryStatus::Other, has_signature: false }),
        pending(7, true),
        pending(6, false),
        Some(PayloadEntry { status: PayloadEntryStatus::Finalized, has_signature: false }),
        pending(4, false),
    ];
    let duties = pending_payload_duties(10, &entries);
    assert_eq!(duties, vec![PayloadSigningDuty::new(9, Buf32([9; 32])), PayloadSigningDuty::new(6, Buf32([6; 32]))]);
    assert_eq!(pending_payload_duties(0, &entries), vec![]);
    assert_eq!(pending_payload_duties(10, &[pending(1, false), None, pending(2, false)]).len(), 1);
    assert_eq!(scan_payload_entry(3, &None), PayloadScan::Stop);
}

#[test]
fn rpc_form_of_duties() {
    let template = create_test_template(10, 1, 0);
    match RpcDuty::from_duty(Duty::SignBlock(BlockSigningDuty::new(template))) {
        RpcDuty::SignBlock(b) => {
            assert_eq!(b.template.header, vec![1, 2, 3]);
            assert_eq!(b.template.body, vec![4, 5]);
        }
        other => panic!("unexpected {:?}", other),
    }
    match RpcDuty::from_duty(Duty::SignCheckpoint(checkpoint_duty(1))) {
        RpcDuty::SignCheckpoint(c) => assert_eq!(c.checkpoint, vec![1, 0xcc, 0xdd]),
        other => panic!("unexpected {:?}", other),
    }
    match RpcDuty::from_duty(Duty::SignPayload(PayloadSigningDuty::new(4, Buf32([3; 32])))) {
        RpcDuty::SignRevealTx(p) => {
            assert_eq!(p.payload_idx, 4);
            assert_eq!(p.sighash, [3; 32]);
        }
        other => panic!("unexpected {:?}", other),
    }
    let e = RpcDutyConversionError::HeaderDecodeError("short".to_string());
    assert_eq!(e.message(), "Failed to decode OL block header: short");
}

#[test]
fn checkpoint_missing_entry_returns_error() {
    for epoch in [0u32, 7, u32::MAX] {
        assert_eq!(
            checkpoint_duty_step(epoch, false, false),
            CheckpointDutyStep::Fail(SequencerDutyError::MissingCheckpoint { epoch })
        );
    }
    assert_eq!(checkpoint_duty_step(1, true, true), CheckpointDutyStep::AlreadySigned);
    assert_eq!(checkpoint_duty_step(1, true, false), CheckpointDutyStep::Submit);
    assert_eq!(intent_index(4, Some(9)), Ok(9));
    assert_eq!(intent_index(4, None), Err(SequencerDutyError::ResolveCheckpointIntentIndex { epoch: 4 }));
}

#[test]
fn duties_are_assembled_in_order() {
    let duties = assemble_duties(
        Some(create_test_template(1, 1, 0)),
        Some(checkpoint_duty(2)),
        vec![PayloadSigningDuty::new(5, Buf32([5; 32])), PayloadSigningDuty::new(4, Buf32([4; 32]))],
    );
    assert_eq!(duties.len(), 4);
    assert!(matches!(duties[0], Duty::SignBlock(_)));
    assert!(matches!(duties[1], Duty::SignCheckpoint(_)));
    assert!(matches!(duties[3], Duty::SignPayload(p) if p.payload_idx == 4));
    assert!(assemble_duties(None, None, vec![]).is_empty());
}
