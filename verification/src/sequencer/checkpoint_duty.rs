//! The decisions of a checkpoint signing duty.

use vstd::prelude::*;

verus! {

/// Why a duty failed.
#[derive(Clone, Debug, PartialEq, Eq)]
pub enum SequencerDutyError {
    /// A call into the node failed.
    Context(String),
    /// No checkpoint is stored for the epoch.
    MissingCheckpoint { epoch: u32 },
    /// The submitted intent got no index.
    ResolveCheckpointIntentIndex { epoch: u32 },
    /// The checkpoint payload could not be encoded.
    CheckpointEncode(String),
}

/// What the duty does once the checkpoint and any earlier signing intent
/// have been looked up.
#[derive(Clone, Debug, PartialEq, Eq)]
pub enum CheckpointDutyStep {
    /// The duty fails.
    Fail(SequencerDutyError),
    /// An intent was already recorded: nothing left to do.
    AlreadySigned,
    /// Submit the checkpoint as an L1 payload intent.
    Submit,
}

/// The checkpoint of `epoch` must be stored; an epoch whose signing intent
/// is already recorded is done.
pub open spec fn spec_checkpoint_duty_step(epoch: u32, checkpoint_found: bool, intent_recorded: bool) -> CheckpointDutyStep {
    if !checkpoint_found {
        CheckpointDutyStep::Fail(SequencerDutyError::MissingCheckpoint { epoch })
    } else if intent_recorded {
        CheckpointDutyStep::AlreadySigned
    } else {
        CheckpointDutyStep::Submit
    }
}

pub fn checkpoint_duty_step(epoch: u32, checkpoint_found: bool, intent_recorded: bool) -> (r: CheckpointDutyStep)
    ensures
        r == spec_checkpoint_duty_step(epoch, checkpoint_found, intent_recorded),
{
    if !checkpoint_found {
        CheckpointDutyStep::Fail(SequencerDutyError::MissingCheckpoint { epoch })
    } else if intent_recorded {
        CheckpointDutyStep::AlreadySigned
    } else {
        CheckpointDutyStep::Submit
    }
}

/// The index under which the submitted intent is to be persisted: the one
/// the writer returned, or an error when it returned none.
pub fn intent_index(epoch: u32, submitted: Option<u64>) -> (r: Result<u64, SequencerDutyError>)
    ensures
        submitted matches Some(i) ==> r == Ok::<u64, SequencerDutyError>(i),
        submitted is None ==> r == Err::<u64, SequencerDutyError>(SequencerDutyError::ResolveCheckpointIntentIndex { epoch }),
{
    match submitted {
        Some(i) => Ok(i),
        None => Err(SequencerDutyError::ResolveCheckpointIntentIndex { epoch }),
    }
}

} // verus!
