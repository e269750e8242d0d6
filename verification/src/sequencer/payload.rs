//! Finding the payload entries that wait for the sequencer's signature.

use vstd::prelude::*;

use crate::ids::Buf32;
use crate::sequencer::duty::PayloadSigningDuty;

verus! {

/// The status of a payload entry in the writer database, as far as the
/// sequencer reads it.
#[derive(Clone, Copy, Debug, PartialEq, Eq)]
pub enum PayloadEntryStatus {
    /// Waiting for a signature of the reveal transaction's sighash.
    PendingPayloadSign(Buf32),
    /// Finalized on L1.
    Finalized,
    /// Any other stage.
    Other,
}

/// What the sequencer reads of a payload entry.
#[derive(Clone, Copy, Debug, PartialEq, Eq)]
pub struct PayloadEntry {
    pub status: PayloadEntryStatus,
    /// Whether a signature was already stored for it.
    pub has_signature: bool,
}

/// The outcome of looking at one payload entry, walking down from the
/// newest.
#[derive(Clone, Copy, Debug, PartialEq, Eq)]
pub enum PayloadScan {
    /// The walk ends: the entry is missing or finalized.
    Stop,
    /// Nothing to sign here; go on with the next older entry.
    Skip,
    /// A duty to sign this entry; go on with the next older entry.
    Sign(PayloadSigningDuty),
}

/// What the entry at `idx` asks of the sequencer.
pub open spec fn scan_of(idx: u64, entry: Option<PayloadEntry>) -> PayloadScan {
    match entry {
        None => PayloadScan::Stop,
        Some(e) => match e.status {
            PayloadEntryStatus::Finalized => PayloadScan::Stop,
            PayloadEntryStatus::PendingPayloadSign(sighash) => if e.has_signature {
                PayloadScan::Skip
            } else {
                PayloadScan::Sign(PayloadSigningDuty { payload_idx: idx, sighash })
            },
            PayloadEntryStatus::Other => PayloadScan::Skip,
        },
    }
}

/// Looks at the entry at index `idx` (`None` when there is none).
pub fn scan_payload_entry(idx: u64, entry: &Option<PayloadEntry>) -> (r: PayloadScan)
    ensures
        r == scan_of(idx, *entry),
{
    match entry {
        None => PayloadScan::Stop,
        Some(e) => match e.status {
            PayloadEntryStatus::Finalized => PayloadScan::Stop,
            PayloadEntryStatus::PendingPayloadSign(sighash) => {
                if e.has_signature {
                    PayloadScan::Skip
                } else {
                    PayloadScan::Sign(PayloadSigningDuty::new(idx, sighash))
                }
            },
            PayloadEntryStatus::Other => PayloadScan::Skip,
        },
    }
}

/// The duties found walking down from index `next_idx - 1 - k`, where
/// `entries[k]` is the entry at that index; the walk ends at index zero, at
/// the end of `entries`, or at an entry that stops it.
pub open spec fn pending_from(next_idx: u64, entries: Seq<Option<PayloadEntry>>, k: nat) -> Seq<PayloadSigningDuty>
    decreases entries.len() - k,
{
    if k >= next_idx || k >= entries.len() {
        Seq::empty()
    } else {
        match scan_of((next_idx - 1 - k) as u64, entries[k as int]) {
            PayloadScan::Stop => Seq::empty(),
            PayloadScan::Skip => pending_from(next_idx, entries, k + 1),
            PayloadScan::Sign(d) => seq![d] + pending_from(next_idx, entries, k + 1),
        }
    }
}

/// The payload entries waiting for the sequencer's signature, newest first:
/// `entries[k]` is the entry at index `next_idx - 1 - k`.
pub fn pending_payload_duties(next_idx: u64, entries: &[Option<PayloadEntry>]) -> (r: Vec<PayloadSigningDuty>)
    ensures
        r@ == pending_from(next_idx, entries@, 0),
{
    let mut out: Vec<PayloadSigningDuty> = Vec::new();
    let mut k: usize = 0;
    while (k as u64) < next_idx && k < entries.len()
        invariant
            k <= entries@.len(),
            out@ + pending_from(next_idx, entries@, k as nat) == pending_from(next_idx, entries@, 0),
        decreases entries.len() - k,
    {
        let idx = next_idx - 1 - (k as u64);
        match scan_payload_entry(idx, &entries[k]) {
            PayloadScan::Stop => {
                assert(pending_from(next_idx, entries@, k as nat) == Seq::<PayloadSigningDuty>::empty());
                assert(out@ + Seq::<PayloadSigningDuty>::empty() =~= out@);
                return out;
            },
            PayloadScan::Skip => {},
            PayloadScan::Sign(d) => {
                let ghost before = out@;
                out.push(d);
                proof {
                    assert(before + (seq![d] + pending_from(next_idx, entries@, (k + 1) as nat)) =~= out@
                        + pending_from(next_idx, entries@, (k + 1) as nat));
                }
            },
        }
        k += 1;
    }
    assert(pending_from(next_idx, entries@, k as nat) == Seq::<PayloadSigningDuty>::empty());
    assert(out@ + Seq::<PayloadSigningDuty>::empty() =~= out@);
    out
}

} // verus!
