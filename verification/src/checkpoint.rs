//! The checkpoint worker's handling of proofs: normalising stored proof
//! bytes and deciding how long to wait for a proof.

use vstd::prelude::*;

verus! {

/// Size of a compressed Groth16 proof, in bytes.
pub const GROTH16_PROOF_COMPRESSED_SIZE: usize = 128;

/// Size of an uncompressed Groth16 proof, in bytes.
pub const GROTH16_PROOF_UNCOMPRESSED_SIZE: usize = 256;

/// Length of the verifying-key hash prefix that SP1 puts before its Groth16
/// proofs.
pub const VK_HASH_PREFIX_LENGTH: usize = 4;

/// The proof bytes that a checkpoint payload carries: for an SP1 proof of
/// the length of a prefixed Groth16 proof (compressed or not), the proof
/// without its prefix; otherwise the bytes as they are.
pub open spec fn payload_proof(sp1: bool, proof: Seq<u8>) -> Seq<u8> {
    if sp1 && (proof.len() == GROTH16_PROOF_COMPRESSED_SIZE + VK_HASH_PREFIX_LENGTH || proof.len()
        == GROTH16_PROOF_UNCOMPRESSED_SIZE + VK_HASH_PREFIX_LENGTH) {
        proof.skip(VK_HASH_PREFIX_LENGTH as int)
    } else {
        proof
    }
}

/// An SP1 proof whose length is that of a Groth16 proof, compressed (128
/// bytes) or not (256 bytes), behind its 4-byte verifying-key hash.
pub open spec fn is_prefixed_groth16(sp1: bool, len: nat) -> bool {
    sp1 && (len == 132 || len == 260)
}

/// The payload proof of an SP1 Groth16 proof with its 4-byte prefix is the
/// proof without the prefix: every byte after the first four, in order.
/// Any other proof is carried unchanged.
pub proof fn lemma_payload_proof_strips_prefix(sp1: bool, proof: Seq<u8>)
    ensures
        is_prefixed_groth16(sp1, proof.len()) ==> payload_proof(sp1, proof).len() + 4 == proof.len() && forall|i: int|
            0 <= i < payload_proof(sp1, proof).len() ==> #[trigger] payload_proof(sp1, proof)[i] == proof[i + 4],
        !is_prefixed_groth16(sp1, proof.len()) ==> payload_proof(sp1, proof) == proof,
{
}

/// Normalises stored proof bytes for a checkpoint payload; `sp1` tells
/// whether the proof comes from the SP1 zkVM.
pub fn payload_proof_bytes(sp1: bool, proof_bytes: &[u8]) -> (r: Vec<u8>)
    ensures
        r@ == payload_proof(sp1, proof_bytes@),
        is_prefixed_groth16(sp1, proof_bytes@.len()) ==> r@.len() + 4 == proof_bytes@.len() && forall|i: int|
            0 <= i < r@.len() ==> #[trigger] r@[i] == proof_bytes@[i + 4],
        !is_prefixed_groth16(sp1, proof_bytes@.len()) ==> r@ == proof_bytes@,
{
    proof {
        lemma_payload_proof_strips_prefix(sp1, proof_bytes@);
    }
    let n = proof_bytes.len();
    let start: usize = if sp1 && (n == GROTH16_PROOF_COMPRESSED_SIZE + VK_HASH_PREFIX_LENGTH || n
        == GROTH16_PROOF_UNCOMPRESSED_SIZE + VK_HASH_PREFIX_LENGTH) {
        VK_HASH_PREFIX_LENGTH
    } else {
        0
    };
    let mut out: Vec<u8> = Vec::new();
    let mut i: usize = start;
    while i < n
        invariant
            start <= i <= n,
            n == proof_bytes@.len(),
            out@ == proof_bytes@.subrange(start as int, i as int),
        decreases n - i,
    {
        out.push(proof_bytes[i]);
        proof {
            assert(proof_bytes@.subrange(start as int, i + 1) =~= proof_bytes@.subrange(start as int, i as int).push(
                proof_bytes@[i as int],
            ));
        }
        i += 1;
    }
    assert(proof_bytes@.subrange(start as int, n as int) =~= payload_proof(sp1, proof_bytes@));
    out
}

/// What a read of the proof database gives the worker: the normalised proof,
/// or nothing when there is no proof or it is empty.
pub fn proof_from_stored(sp1: bool, stored: Option<&[u8]>) -> (r: Option<Vec<u8>>)
    ensures
        stored is None ==> r is None,
        stored matches Some(b) ==> (if payload_proof(sp1, b@).len() == 0 {
            r is None
        } else {
            r matches Some(p) && p@ == payload_proof(sp1, b@)
        }),
{
    match stored {
        None => None,
        Some(b) => {
            let p = payload_proof_bytes(sp1, b);
            if p.len() == 0 {
                None
            } else {
                Some(p)
            }
        },
    }
}

/// How the checkpoint worker waits for proofs.
#[derive(Clone, Copy, Debug, PartialEq, Eq)]
pub enum ProofPublishMode {
    /// Wait until a proof appears.
    Strict,
    /// Give up after this many seconds and publish an empty proof.
    Timeout(u64),
}

/// The time, in microseconds, after which the worker gives up waiting, if
/// it ever does (saturating at the largest time).
pub open spec fn spec_proof_deadline(mode: ProofPublishMode, now_micros: u64) -> Option<u64> {
    match mode {
        ProofPublishMode::Strict => None,
        ProofPublishMode::Timeout(secs) => Some(
            if now_micros + secs * 1_000_000 <= u64::MAX {
                (now_micros + secs * 1_000_000) as u64
            } else {
                u64::MAX
            },
        ),
    }
}

/// A strict worker never gives up; one with a timeout of `secs` seconds
/// gives up `secs` seconds (in microseconds) after `now_micros`, or at the
/// largest time when that lies beyond it, and never before `now_micros`.
pub proof fn lemma_proof_deadline(mode: ProofPublishMode, now_micros: u64)
    ensures
        mode is Strict ==> spec_proof_deadline(mode, now_micros) is None,
        mode matches ProofPublishMode::Timeout(secs) ==> {
            let d = spec_proof_deadline(mode, now_micros);
            &&& d is Some
            &&& d->0 >= now_micros
            &&& (now_micros + secs * 1_000_000 <= u64::MAX ==> d->0 == now_micros + secs * 1_000_000)
            &&& (now_micros + secs * 1_000_000 > u64::MAX ==> d->0 == u64::MAX)
        },
{
}

pub fn proof_deadline(mode: ProofPublishMode, now_micros: u64) -> (r: Option<u64>)
    ensures
        r == spec_proof_deadline(mode, now_micros),
        mode is Strict ==> r is None,
        mode matches ProofPublishMode::Timeout(secs) ==> {
            &&& r is Some
            &&& r->0 >= now_micros
            &&& (now_micros + secs * 1_000_000 <= u64::MAX ==> r->0 == now_micros + secs * 1_000_000)
            &&& (now_micros + secs * 1_000_000 > u64::MAX ==> r->0 == u64::MAX)
        },
{
    proof {
        lemma_proof_deadline(mode, now_micros);
    }
    match mode {
        ProofPublishMode::Strict => None,
        ProofPublishMode::Timeout(secs) => {
            match secs.checked_mul(1_000_000) {
                Some(wait) => Some(now_micros.saturating_add(wait)),
                None => Some(u64::MAX),
            }
        },
    }
}

/// Whether the worker gives up waiting at `now_micros`: a deadline is set
/// and has come.
pub fn proof_wait_expired(deadline: Option<u64>, now_micros: u64) -> (r: bool)
    ensures
        r == (deadline matches Some(d) && now_micros >= d),
{
    match deadline {
        Some(d) => now_micros >= d,
        None => false,
    }
}

/// What the walk over an epoch's blocks reads of a block header.
#[derive(Clone, Copy, Debug, PartialEq, Eq)]
pub struct EpochBlockHeader {
    pub slot: u64,
    pub epoch: u32,
    pub parent_blkid: [u8; 32],
}

/// Why the blocks of an epoch could not be collected.
#[derive(Clone, Copy, Debug, PartialEq, Eq)]
pub enum EpochWalkError {
    /// A block sits at or below the previous epoch's terminal slot.
    BelowPrevTerminal { slot: u64, prev_terminal_slot: u64 },
    /// A block belongs to another epoch.
    WrongEpoch { expected: u32, actual: u32 },
}

/// The next move of the walk from an epoch's terminal block back to the
/// previous terminal.
#[derive(Clone, Copy, Debug, PartialEq, Eq)]
pub enum EpochWalkStep {
    /// The block belongs to the epoch; its parent is the next to fetch.
    Continue([u8; 32]),
    /// The block belongs to the epoch and is its first.
    Done,
}

/// What one block tells the walk: a block at or below the previous
/// terminal's slot, or of another epoch, breaks the chain; a block whose
/// parent is the previous terminal is the epoch's first.
pub open spec fn spec_epoch_walk_step(
    h: EpochBlockHeader,
    epoch: u32,
    prev_terminal_slot: u64,
    prev_terminal_blkid: [u8; 32],
) -> Result<EpochWalkStep, EpochWalkError> {
    if h.slot <= prev_terminal_slot {
        Err(EpochWalkError::BelowPrevTerminal { slot: h.slot, prev_terminal_slot })
    } else if h.epoch != epoch {
        Err(EpochWalkError::WrongEpoch { expected: epoch, actual: h.epoch })
    } else if h.parent_blkid == prev_terminal_blkid {
        Ok(EpochWalkStep::Done)
    } else {
        Ok(EpochWalkStep::Continue(h.parent_blkid))
    }
}

/// The walk keeps exactly the blocks of the epoch above the previous
/// terminal's slot: such a block ends the walk when its parent is the
/// previous terminal and otherwise continues to its parent.
pub proof fn lemma_epoch_walk(
    h: EpochBlockHeader,
    epoch: u32,
    prev_terminal_slot: u64,
    prev_terminal_blkid: [u8; 32],
)
    ensures
        spec_epoch_walk_step(h, epoch, prev_terminal_slot, prev_terminal_blkid) is Ok <==> (h.slot
            > prev_terminal_slot && h.epoch == epoch),
        spec_epoch_walk_step(h, epoch, prev_terminal_slot, prev_terminal_blkid) matches Ok(step) ==> (step is Done
            <==> h.parent_blkid == prev_terminal_blkid),
        spec_epoch_walk_step(h, epoch, prev_terminal_slot, prev_terminal_blkid) matches Ok(
            EpochWalkStep::Continue(p),
        ) ==> p == h.parent_blkid,
{
}

pub fn epoch_walk_step(
    h: &EpochBlockHeader,
    epoch: u32,
    prev_terminal_slot: u64,
    prev_terminal_blkid: &[u8; 32],
) -> (r: Result<EpochWalkStep, EpochWalkError>)
    ensures
        r == spec_epoch_walk_step(*h, epoch, prev_terminal_slot, *prev_terminal_blkid),
        r is Ok <==> (h.slot > prev_terminal_slot && h.epoch == epoch),
        r matches Ok(step) ==> (step is Done <==> h.parent_blkid == *prev_terminal_blkid),
        r matches Ok(EpochWalkStep::Continue(p)) ==> p == h.parent_blkid,
{
    proof {
        lemma_epoch_walk(*h, epoch, prev_terminal_slot, *prev_terminal_blkid);
    }
    if h.slot <= prev_terminal_slot {
        return Err(EpochWalkError::BelowPrevTerminal { slot: h.slot, prev_terminal_slot });
    }
    if h.epoch != epoch {
        return Err(EpochWalkError::WrongEpoch { expected: epoch, actual: h.epoch });
    }
    if crate::ids::bytes32_eq(&h.parent_blkid, prev_terminal_blkid) {
        Ok(EpochWalkStep::Done)
    } else {
        Ok(EpochWalkStep::Continue(h.parent_blkid))
    }
}

} // verus!
