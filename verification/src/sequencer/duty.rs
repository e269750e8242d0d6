//! Sequencer duties and their expiry.

use vstd::prelude::*;

use crate::ids::Buf32;
use crate::prover::record::copy_bytes;
use crate::sys::now_micros;

verus! {

/// When the sequencer stops working to fulfil a duty.
#[derive(Clone, Copy, Debug, PartialEq, Eq)]
pub enum Expiry {
    /// When the next block is seen.
    NextBlock,
    /// When the block is finalized to L1 in a batch.
    BlockFinalized,
    /// After a timestamp.
    Timestamp(u64),
    /// After a given L2 block is finalized.
    BlockIdFinalized(Buf32),
    /// After the checkpoint of an epoch is finalized on bitcoin.
    CheckpointFinalized(u32),
    /// Never: the lifecycle is managed elsewhere.
    Never,
}

/// What a block signing duty reads of its block template: the template id,
/// the header fields that scheduling needs, and the encoded header and body.
#[derive(Clone, Debug)]
pub struct BlockTemplate {
    pub template_id: Buf32,
    pub timestamp: u64,
    pub slot: u64,
    pub epoch: u32,
    pub header: Vec<u8>,
    pub body: Vec<u8>,
}

impl BlockTemplate {
    pub fn new(template_id: Buf32, timestamp: u64, slot: u64, epoch: u32, header: Vec<u8>, body: Vec<u8>) -> (r:
        BlockTemplate)
        ensures
            r == (BlockTemplate { template_id, timestamp, slot, epoch, header, body }),
    {
        BlockTemplate { template_id, timestamp, slot, epoch, header, body }
    }

    /// A copy of the template.
    pub fn duplicate(&self) -> (r: BlockTemplate)
        ensures
            r.template_id == self.template_id,
            r.timestamp == self.timestamp,
            r.slot == self.slot,
            r.epoch == self.epoch,
            r.header@ == self.header@,
            r.body@ == self.body@,
    {
        BlockTemplate {
            template_id: self.template_id,
            timestamp: self.timestamp,
            slot: self.slot,
            epoch: self.epoch,
            header: copy_bytes(&self.header),
            body: copy_bytes(&self.body),
        }
    }
}

/// Milliseconds to wait, from `now_millis`, until `target` (none once it is
/// reached).
pub open spec fn wait_millis(target: u64, now_millis: u64) -> Option<u64> {
    if now_millis >= target {
        None
    } else {
        Some((target - now_millis) as u64)
    }
}

/// Whether a block due at `target` (milliseconds) is due by a clock that
/// reads `clock_micros` microseconds since the UNIX epoch.
pub open spec fn ready_by_clock(target: u64, clock_micros: u64) -> bool {
    clock_micros / 1000 >= target
}

/// Milliseconds to wait until `target` by a clock that reads `clock_micros`
/// microseconds since the UNIX epoch (none once it is reached).
pub open spec fn wait_by_clock(target: u64, clock_micros: u64) -> Option<u64> {
    wait_millis(target, clock_micros / 1000)
}

/// A duty to sign a block built from a template.
#[derive(Clone, Debug)]
pub struct BlockSigningDuty {
    /// The block template to sign.
    pub template: BlockTemplate,
}

impl BlockSigningDuty {
    pub fn new(template: BlockTemplate) -> (r: BlockSigningDuty)
        ensures
            r.template == template,
    {
        BlockSigningDuty { template }
    }

    /// The template's id.
    pub fn template_id(&self) -> (r: Buf32)
        ensures
            r == self.template.template_id,
    {
        self.template.template_id
    }

    /// The time, in milliseconds since the UNIX epoch, at which the block is
    /// due.
    pub fn target_timestamp(&self) -> (r: u64)
        ensures
            r == self.template.timestamp,
    {
        self.template.timestamp
    }

    /// The block's slot.
    pub fn slot(&self) -> (r: u64)
        ensures
            r == self.template.slot,
    {
        self.template.slot
    }

    /// Whether the duty is due at `now_millis`: its target time has come.
    pub fn is_ready_at(&self, now_millis: u64) -> (r: bool)
        ensures
            r == (now_millis >= self.template.timestamp),
    {
        now_millis >= self.template.timestamp
    }

    /// How long, from `now_millis`, until the duty is due: none once it is.
    pub fn wait_duration_at(&self, now_millis: u64) -> (r: Option<u64>)
        ensures
            r == wait_millis(self.template.timestamp, now_millis),
    {
        if now_millis >= self.template.timestamp {
            None
        } else {
            Some(self.template.timestamp - now_millis)
        }
    }

    /// Whether the duty is due now, by the system clock: that is
    /// [`BlockSigningDuty::is_ready_at`] at the clock's reading in
    /// milliseconds; the reading itself is not fixed by any contract.
    pub fn is_ready(&self) -> (r: bool)
        ensures
            exists|clock_micros: u64| r == #[trigger] ready_by_clock(self.template.timestamp, clock_micros),
    {
        let clock = now_micros();
        let r = self.is_ready_at(clock / 1000);
        assert(r == ready_by_clock(self.template.timestamp, clock));
        r
    }

    /// How long to wait, in milliseconds, until the duty is due by the
    /// system clock: [`BlockSigningDuty::wait_duration_at`] at the clock's
    /// reading in milliseconds (none once it is due).
    pub fn wait_duration(&self) -> (r: Option<u64>)
        ensures
            exists|clock_micros: u64| r == #[trigger] wait_by_clock(self.template.timestamp, clock_micros),
    {
        let clock = now_micros();
        let r = self.wait_duration_at(clock / 1000);
        assert(r == wait_by_clock(self.template.timestamp, clock));
        r
    }
}

/// A duty to sign the checkpoint of an epoch: the encoded checkpoint
/// payload, its epoch and its hash.
#[derive(Clone, Debug)]
pub struct CheckpointSigningDuty {
    epoch: u32,
    checkpoint: Vec<u8>,
    hash: Buf32,
}

impl CheckpointSigningDuty {
    pub fn new(epoch: u32, checkpoint: Vec<u8>, hash: Buf32) -> (r: CheckpointSigningDuty)
        ensures
            r.spec_epoch() == epoch,
            r.spec_checkpoint() == checkpoint@,
            r.spec_hash() == hash,
    {
        CheckpointSigningDuty { epoch, checkpoint, hash }
    }

    pub closed spec fn spec_epoch(&self) -> u32 {
        self.epoch
    }

    pub closed spec fn spec_checkpoint(&self) -> Seq<u8> {
        self.checkpoint@
    }

    pub closed spec fn spec_hash(&self) -> Buf32 {
        self.hash
    }

    /// The checkpoint's epoch.
    pub fn epoch(&self) -> (r: u32)
        ensures
            r == self.spec_epoch(),
    {
        self.epoch
    }

    /// The checkpoint's hash.
    pub fn hash(&self) -> (r: [u8; 32])
        ensures
            r == self.spec_hash().0,
    {
        self.hash.0
    }

    /// The encoded checkpoint payload.
    pub fn checkpoint(&self) -> (r: &Vec<u8>)
        ensures
            r@ == self.spec_checkpoint(),
    {
        &self.checkpoint
    }
}

/// A duty to sign the reveal transaction of a payload envelope.
#[derive(Clone, Copy, Debug, PartialEq, Eq)]
pub struct PayloadSigningDuty {
    /// Index of the payload entry in the writer database.
    pub payload_idx: u64,
    /// Taproot script-spend sighash to sign.
    pub sighash: Buf32,
}

impl PayloadSigningDuty {
    pub fn new(payload_idx: u64, sighash: Buf32) -> (r: PayloadSigningDuty)
        ensures
            r == (PayloadSigningDuty { payload_idx, sighash }),
    {
        PayloadSigningDuty { payload_idx, sighash }
    }
}

/// A duty of the sequencer.
#[derive(Clone, Debug)]
pub enum Duty {
    /// Sign a block.
    SignBlock(BlockSigningDuty),
    /// Sign a checkpoint.
    SignCheckpoint(CheckpointSigningDuty),
    /// Sign a payload envelope's reveal transaction.
    SignPayload(PayloadSigningDuty),
}

/// The expiry of a duty.
pub open spec fn duty_expiry(d: Duty) -> Expiry {
    match d {
        Duty::SignBlock(_) => Expiry::NextBlock,
        Duty::SignCheckpoint(c) => Expiry::CheckpointFinalized(c.spec_epoch()),
        Duty::SignPayload(_) => Expiry::Never,
    }
}

/// The identifier of a duty: the template id of a block, the hash of a
/// checkpoint, the sighash of a payload.
pub open spec fn duty_id(d: Duty) -> Buf32 {
    match d {
        Duty::SignBlock(b) => b.template.template_id,
        Duty::SignCheckpoint(c) => c.spec_hash(),
        Duty::SignPayload(p) => p.sighash,
    }
}

impl Duty {
    /// When the duty expires: a block duty at the next block, a checkpoint
    /// duty when its epoch's checkpoint is finalized, a payload duty never.
    pub fn expiry(&self) -> (r: Expiry)
        ensures
            r == duty_expiry(*self),
    {
        match self {
            Duty::SignBlock(_) => Expiry::NextBlock,
            Duty::SignCheckpoint(c) => Expiry::CheckpointFinalized(c.epoch()),
            Duty::SignPayload(_) => Expiry::Never,
        }
    }

    /// The duty's identifier.
    pub fn generate_id(&self) -> (r: Buf32)
        ensures
            r == duty_id(*self),
    {
        match self {
            Duty::SignBlock(b) => b.template_id(),
            Duty::SignCheckpoint(c) => Buf32(c.hash()),
            Duty::SignPayload(p) => p.sighash,
        }
    }

    /// A copy of the duty.
    pub fn duplicate(&self) -> (r: Duty)
        ensures
            duty_id(r) == duty_id(*self),
            duty_expiry(r) == duty_expiry(*self),
    {
        match self {
            Duty::SignBlock(b) => Duty::SignBlock(BlockSigningDuty { template: b.template.duplicate() }),
            Duty::SignCheckpoint(c) => Duty::SignCheckpoint(
                CheckpointSigningDuty::new(c.epoch(), copy_bytes(c.checkpoint()), Buf32(c.hash())),
            ),
            Duty::SignPayload(p) => Duty::SignPayload(*p),
        }
    }
}

/// The duties found at a tip, in order: the block duty if a template is
/// pending, the checkpoint duty if a checkpoint waits for signing, then the
/// payload duties.
pub fn assemble_duties(
    template: Option<BlockTemplate>,
    checkpoint: Option<CheckpointSigningDuty>,
    payloads: Vec<PayloadSigningDuty>,
) -> (r: Vec<Duty>)
    ensures
        r@ == (match template {
            Some(t) => seq![Duty::SignBlock(BlockSigningDuty { template: t })],
            None => Seq::<Duty>::empty(),
        }) + (match checkpoint {
            Some(c) => seq![Duty::SignCheckpoint(c)],
            None => Seq::<Duty>::empty(),
        }) + payloads@.map_values(|p: PayloadSigningDuty| Duty::SignPayload(p)),
{
    let mut out: Vec<Duty> = Vec::new();
    match template {
        Some(t) => out.push(Duty::SignBlock(BlockSigningDuty::new(t))),
        None => {},
    }
    match checkpoint {
        Some(c) => out.push(Duty::SignCheckpoint(c)),
        None => {},
    }
    let ghost head = out@;
    let mut i: usize = 0;
    while i < payloads.len()
        invariant
            i <= payloads@.len(),
            out@ == head + payloads@.take(i as int).map_values(|p: PayloadSigningDuty| Duty::SignPayload(p)),
        decreases payloads.len() - i,
    {
        out.push(Duty::SignPayload(payloads[i]));
        proof {
            assert(payloads@.take(i + 1).map_values(|p: PayloadSigningDuty| Duty::SignPayload(p)) =~= payloads@.take(
                i as int,
            ).map_values(|p: PayloadSigningDuty| Duty::SignPayload(p)).push(Duty::SignPayload(payloads@[i as int])));
        }
        i += 1;
    }
    assert(payloads@.take(payloads@.len() as int) =~= payloads@);
    out
}

} // verus!
