//! The wire form of sequencer duties, as the node's RPC hands them to an
//! external signer.

use vstd::prelude::*;

use crate::ids::Buf32;
use crate::sequencer::duty::{BlockSigningDuty, CheckpointSigningDuty, Duty, PayloadSigningDuty};
use crate::sys::concat;

verus! {

/// A block template on the wire: encoded header and body.
#[derive(Clone, Debug, PartialEq, Eq)]
pub struct RpcBlockTemplate {
    pub header: Vec<u8>,
    pub body: Vec<u8>,
}

/// A block signing duty on the wire.
#[derive(Clone, Debug, PartialEq, Eq)]
pub struct RpcBlockSigningDuty {
    pub template: RpcBlockTemplate,
}

/// A checkpoint signing duty on the wire: the encoded checkpoint payload.
#[derive(Clone, Debug, PartialEq, Eq)]
pub struct RpcCheckpointSigningDuty {
    pub checkpoint: Vec<u8>,
}

/// A reveal transaction signing duty on the wire.
#[derive(Clone, Copy, Debug, PartialEq, Eq)]
pub struct RpcRevealTxSigningDuty {
    /// Index of the payload entry in the writer database.
    pub payload_idx: u64,
    /// Taproot script-spend sighash to sign.
    pub sighash: [u8; 32],
}

/// A duty on the wire.
#[derive(Clone, Debug, PartialEq, Eq)]
pub enum RpcDuty {
    SignBlock(RpcBlockSigningDuty),
    SignCheckpoint(RpcCheckpointSigningDuty),
    SignRevealTx(RpcRevealTxSigningDuty),
}

/// Why a duty on the wire could not be read back.
#[derive(Clone, Debug, PartialEq, Eq)]
pub enum RpcDutyConversionError {
    HeaderDecodeError(String),
    BodyDecodeError(String),
    CheckpointDecodeError(String),
}

/// The text of a conversion error.
pub open spec fn conversion_error_message(e: RpcDutyConversionError) -> Seq<char> {
    match e {
        RpcDutyConversionError::HeaderDecodeError(s) => "Failed to decode OL block header: "@ + s@,
        RpcDutyConversionError::BodyDecodeError(s) => "Failed to decode OL block body: "@ + s@,
        RpcDutyConversionError::CheckpointDecodeError(s) => "Failed to decode checkpoint payload: "@ + s@,
    }
}

impl RpcDutyConversionError {
    /// The error's text.
    pub fn message(&self) -> (r: String)
        ensures
            r@ == conversion_error_message(*self),
    {
        match self {
            RpcDutyConversionError::HeaderDecodeError(s) => concat("Failed to decode OL block header: ", s.as_str()),
            RpcDutyConversionError::BodyDecodeError(s) => concat("Failed to decode OL block body: ", s.as_str()),
            RpcDutyConversionError::CheckpointDecodeError(s) => concat(
                "Failed to decode checkpoint payload: ",
                s.as_str(),
            ),
        }
    }
}

/// `r` is the wire form of `d`: the template's encoded header and body, the
/// encoded checkpoint, or the payload index and sighash.
pub open spec fn is_wire_form(d: Duty, r: RpcDuty) -> bool {
    match (d, r) {
        (Duty::SignBlock(b), RpcDuty::SignBlock(rb)) => rb.template.header@ == b.template.header@
            && rb.template.body@ == b.template.body@,
        (Duty::SignCheckpoint(c), RpcDuty::SignCheckpoint(rc)) => rc.checkpoint@ == c.spec_checkpoint(),
        (Duty::SignPayload(p), RpcDuty::SignRevealTx(rp)) => rp.payload_idx == p.payload_idx && rp.sighash
            == p.sighash.0,
        _ => false,
    }
}

impl RpcDuty {
    /// The wire form of duty `d`.
    pub fn from_duty(d: Duty) -> (r: RpcDuty)
        ensures
            is_wire_form(d, r),
    {
        match d {
            Duty::SignBlock(b) => {
                let t = b.template;
                RpcDuty::SignBlock(RpcBlockSigningDuty { template: RpcBlockTemplate { header: t.header, body: t.body } })
            },
            Duty::SignCheckpoint(c) => RpcDuty::SignCheckpoint(
                RpcCheckpointSigningDuty { checkpoint: crate::prover::record::copy_bytes(c.checkpoint()) },
            ),
            Duty::SignPayload(p) => RpcDuty::SignRevealTx(
                RpcRevealTxSigningDuty { payload_idx: p.payload_idx, sighash: p.sighash.0 },
            ),
        }
    }
}

} // verus!
