use strata_ol::checkpoint::{
    epoch_walk_step, payload_proof_bytes, proof_deadline, proof_from_stored, proof_wait_expired,
    EpochBlockHeader, EpochWalkError, EpochWalkStep, ProofPublishMode,
};

#[test]
fn sp1_groth16_prefix_is_stripped() {
    let compressed: Vec<u8> = (0..132u32).map(|i| i as u8).collect();
    assert_eq!(payload_proof_bytes(true, &compressed), compressed[4..].to_vec());
    let uncompressed = vec![9u8; 260];
    assert_eq!(payload_proof_bytes(true, &uncompressed).len(), 256);
    let other = vec![1u8; 131];
    assert_eq!(payload_proof_bytes(true, &other), other);
    assert_eq!(payload_proof_bytes(false, &compressed), compressed);
}

#[test]
fn empty_or_missing_proofs_are_not_proofs() {
    assert_eq!(proof_from_stored(true, None), None);
    assert_eq!(proof_from_stored(false, Some(&[][..])), None);
    assert_eq!(proof_from_stored(false, Some(&[1u8, 2][..])), Some(vec![1, 2]));
}

#[test]
fn proof_wait_deadline() {
    assert_eq!(proof_deadline(ProofPublishMode::Strict, 5), None);
    assert_eq!(proof_deadline(ProofPublishMode::Timeout(3), 5), Some(3_000_005));
    assert_eq!(proof_deadline(ProofPublishMode::Timeout(u64::MAX), 5), Some(u64::MAX));
    assert!(!proof_wait_expired(None, u64::MAX));
    assert!(!proof_wait_expired(Some(10), 9));
    assert!(proof_wait_expired(Some(10), 10));
}

#[test]
fn epoch_walk_checks_each_block() {
    let prev = [7u8; 32];
    let h = |slot, epoch, parent| EpochBlockHeader { slot, epoch, parent_blkid: parent };
    assert_eq!(epoch_walk_step(&h(12, 3, [1u8; 32]), 3, 10, &prev), Ok(EpochWalkStep::Continue([1u8; 32])));
    assert_eq!(epoch_walk_step(&h(11, 3, prev), 3, 10, &prev), Ok(EpochWalkStep::Done));
    assert_eq!(
        epoch_walk_step(&h(10, 3, prev), 3, 10, &prev),
        Err(EpochWalkError::BelowPrevTerminal { slot: 10, prev_terminal_slot: 10 })
    );
    assert_eq!(
        epoch_walk_step(&h(11, 4, prev), 3, 10, &prev),
        Err(EpochWalkError::WrongEpoch { expected: 3, actual: 4 })
    );
}
