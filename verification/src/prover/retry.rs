//! The prover's bookkeeping decisions: what a failure does to a task, what
//! waiters are told, and how records are kept in persistent form.

use vstd::prelude::*;

use crate::prover::error::{ProverError, ProverResult, spec_error_message};
use crate::prover::record::{TaskRecord, TaskRecordView};
use crate::prover::store::TaskStore;
use crate::prover::task::{TaskStatus, TaskStatusView};
use crate::sys::{concat, now_micros};

verus! {

/// Microseconds in a second.
pub const MICROS_PER_SEC: u64 = 1_000_000;

/// A retry is allowed while the retry count stays under the configured maximum.
pub fn should_retry(max_retries: u32, retry_count: u32) -> (r: bool)
    ensures
        r == (retry_count < max_retries),
{
    retry_count < max_retries
}

/// The number of transient failures a task has had so far: the count of its
/// current status if that is a transient failure, otherwise zero.
pub open spec fn spec_retry_count(prev: Option<TaskStatusView>) -> u32 {
    match prev {
        Some(TaskStatusView::TransientFailure { retry_count, .. }) => retry_count,
        _ => 0,
    }
}

pub fn current_retry_count(prev: Option<&TaskStatus>) -> (r: u32)
    ensures
        r == spec_retry_count(match prev {
            Some(s) => Some(s@),
            None => None,
        }),
{
    match prev {
        Some(TaskStatus::TransientFailure { retry_count, .. }) => *retry_count,
        _ => 0,
    }
}

/// What a failed proving attempt does to a task.
pub enum FailureOutcome {
    /// Record the status and schedule another attempt; the delay depends on
    /// `retry_count`.
    Retry { status: TaskStatus, retry_count: u32 },
    /// Record the status; the task is finished.
    Fail { status: TaskStatus },
}

/// The status that a transient failure with message `msg` leads to, given the
/// task's previous status and the retry limit (`None`: retries are off).
///
/// A retry is scheduled while the new retry count stays below the limit;
/// otherwise the task fails permanently with "retries exhausted: " and the
/// message.
pub fn schedule_retry(prev: Option<&TaskStatus>, msg: &str, max_retries: Option<u32>) -> (r:
    FailureOutcome)
    requires
        prev matches Some(TaskStatus::TransientFailure { retry_count, .. }) ==> retry_count < u32::MAX,
    ensures
        ({
            let prev_v = match prev {
                Some(s) => Some(s@),
                None => None,
            };
            let n = spec_retry_count(prev_v) + 1;
            if max_retries matches Some(m) && n < m {
                r matches FailureOutcome::Retry { status, retry_count } && retry_count == n
                    && status@ == (TaskStatusView::TransientFailure { retry_count: n as u32, error: msg@ })
            } else {
                r matches FailureOutcome::Fail { status } && status@ == (TaskStatusView::PermanentFailure {
                    error: "retries exhausted: "@ + msg@,
                })
            }
        }),
{
    let new_count = current_retry_count(prev) + 1;
    if let Some(max) = max_retries {
        if should_retry(max, new_count) {
            return FailureOutcome::Retry {
                status: TaskStatus::TransientFailure { retry_count: new_count, error: msg.to_owned() },
                retry_count: new_count,
            };
        }
    }
    FailureOutcome::Fail {
        status: TaskStatus::PermanentFailure { error: concat("retries exhausted: ", msg) },
    }
}

/// What an error raised while proving a task does to it: a transient error
/// goes through [`schedule_retry`] with the error's text; any other error
/// fails the task permanently with the error's text.
pub fn handle_error(prev: Option<&TaskStatus>, err: &ProverError, max_retries: Option<u32>) -> (r:
    FailureOutcome)
    requires
        prev matches Some(TaskStatus::TransientFailure { retry_count, .. }) ==> retry_count < u32::MAX,
    ensures
        !(err is TransientFailure) ==> (r matches FailureOutcome::Fail { status } && status@ == (
        TaskStatusView::PermanentFailure { error: spec_error_message(*err) })),
        err is TransientFailure ==> ({
            let prev_v = match prev {
                Some(s) => Some(s@),
                None => None,
            };
            let n = spec_retry_count(prev_v) + 1;
            if max_retries matches Some(m) && n < m {
                r matches FailureOutcome::Retry { status, retry_count } && retry_count == n
                    && status@ == (TaskStatusView::TransientFailure {
                    retry_count: n as u32,
                    error: spec_error_message(*err),
                })
            } else {
                r matches FailureOutcome::Fail { status } && status@ == (TaskStatusView::PermanentFailure {
                    error: "retries exhausted: "@ + spec_error_message(*err),
                })
            }
        }),
{
    let msg = err.message();
    if err.is_transient() {
        schedule_retry(prev, msg.as_str(), max_retries)
    } else {
        FailureOutcome::Fail { status: TaskStatus::PermanentFailure { error: msg } }
    }
}

/// The current status of task `uuid` in `store`.
pub fn task_status<S: TaskStore>(store: &S, uuid: &str) -> (r: ProverResult<TaskStatus>)
    requires
        store.inv(),
    ensures
        store.tasks().contains_key(uuid@) ==> (r matches Ok(s) && s@ == store.tasks()[uuid@].status),
        !store.tasks().contains_key(uuid@) ==> (r matches Err(ProverError::TaskNotFound(u)) && u@
            == uuid@),
{
    match store.get(uuid) {
        Some(rec) => Ok(rec.status().duplicate()),
        None => Err(ProverError::TaskNotFound(uuid.to_owned())),
    }
}

/// Whole seconds of a time in microseconds.
pub fn micros_to_secs(t: u64) -> (r: u64)
    ensures
        r == t / MICROS_PER_SEC,
{
    t / MICROS_PER_SEC
}

/// A time given in whole seconds, in microseconds.
pub fn secs_to_micros(secs: u64) -> (r: u64)
    requires
        secs * MICROS_PER_SEC <= u64::MAX,
    ensures
        r == secs * MICROS_PER_SEC,
{
    secs * MICROS_PER_SEC
}

/// Persistent form of a [`TaskRecord`]: times in whole seconds, no UUID (the
/// UUID is the storage key).
#[derive(Debug, Clone)]
pub struct StoredRecord {
    pub status: TaskStatus,
    pub updated_at_secs: u64,
    pub retry_after_secs: Option<u64>,
    pub metadata: Option<Vec<u8>>,
}

impl StoredRecord {
    /// The persistent form of `record`, stamped with the current time.
    pub fn from_record(record: &TaskRecord) -> (r: StoredRecord)
        ensures
            r.status@ == record@.status,
            r.retry_after_secs == (match record@.retry_after {
                Some(t) => Some(t / MICROS_PER_SEC),
                None => None::<u64>,
            }),
            r.metadata is Some <==> record@.metadata is Some,
            r.metadata matches Some(m) ==> record@.metadata == Some(m@),
    {
        let retry_after_secs = match record.retry_after() {
            Some(t) => Some(micros_to_secs(t)),
            None => None,
        };
        let metadata = match record.metadata() {
            Some(m) => Some(vstd::slice::slice_to_vec(m)),
            None => None,
        };
        StoredRecord {
            status: record.status().duplicate(),
            updated_at_secs: micros_to_secs(now_micros()),
            retry_after_secs,
            metadata,
        }
    }

    /// The record of task `uuid` that this persistent form describes.
    pub fn to_record(self, uuid: String) -> (r: TaskRecord)
        requires
            self.retry_after_secs matches Some(s) ==> s * MICROS_PER_SEC <= u64::MAX,
        ensures
            r@.uuid == uuid@,
            r@.status == self.status@,
            r@.retry_after == (match self.retry_after_secs {
                Some(s) => Some((s * MICROS_PER_SEC) as u64),
                None => None::<u64>,
            }),
            r@.metadata == (match self.metadata {
                Some(m) => Some(m@),
                None => None::<Seq<u8>>,
            }),
    {
        let mut r = TaskRecord::new(uuid, self.status);
        if let Some(secs) = self.retry_after_secs {
            r.set_retry_after(Some(secs_to_micros(secs)));
        }
        if let Some(data) = self.metadata {
            r.set_metadata(Some(data));
        }
        r
    }
}

/// Status of the prover service.
#[derive(Clone, Copy, Debug, PartialEq, Eq)]
pub struct ProverServiceStatus {
    /// Number of tasks in the store.
    pub task_count: usize,
}

/// The prover service's status: how many tasks its store holds.
pub fn prover_status<S: TaskStore>(store: &S) -> (r: ProverServiceStatus)
    requires
        store.inv(),
    ensures
        r.task_count == store.tasks().dom().len(),
{
    ProverServiceStatus { task_count: store.count() }
}

/// The status that error `err` leaves a task in, given its previous status
/// and the retry limit: see [`handle_error`].
pub open spec fn failure_status(prev: Option<TaskStatusView>, err: ProverError, max_retries: Option<u32>) -> TaskStatusView {
    if err is TransientFailure {
        let n = spec_retry_count(prev) + 1;
        if max_retries matches Some(m) && n < m {
            TaskStatusView::TransientFailure { retry_count: n as u32, error: spec_error_message(err) }
        } else {
            TaskStatusView::PermanentFailure { error: "retries exhausted: "@ + spec_error_message(err) }
        }
    } else {
        TaskStatusView::PermanentFailure { error: spec_error_message(err) }
    }
}

/// Records in `store` what error `err` does to task `uuid` (see
/// [`handle_error`]). Returns the new retry count when a retry is scheduled;
/// the caller then sets the task's retry time. A task missing from the store
/// is left missing.
pub fn record_failure<S: TaskStore>(store: &mut S, uuid: &str, err: &ProverError, max_retries: Option<u32>) -> (r:
    Option<u32>)
    requires
        old(store).inv(),
        old(store).tasks().contains_key(uuid@) ==> (old(store).tasks()[uuid@].status matches TaskStatusView::TransientFailure {
            retry_count,
            ..
        } ==> retry_count < u32::MAX),
    ensures
        final(store).inv(),
        !old(store).tasks().contains_key(uuid@) ==> final(store).tasks() == old(store).tasks() && r is None,
        old(store).tasks().contains_key(uuid@) ==> ({
            let prev = Some(old(store).tasks()[uuid@].status);
            let st = failure_status(prev, *err, max_retries);
            &&& final(store).tasks().dom() == old(store).tasks().dom()
            &&& forall|u: Seq<char>|
                #![trigger final(store).tasks()[u]]
                old(store).tasks().contains_key(u) && u != uuid@ ==> final(store).tasks()[u] == old(
                    store,
                ).tasks()[u]
            &&& final(store).tasks()[uuid@].status == st
            &&& final(store).tasks()[uuid@].retry_after == old(store).tasks()[uuid@].retry_after
            &&& final(store).tasks()[uuid@].metadata == old(store).tasks()[uuid@].metadata
            &&& r == (if st is TransientFailure {
                Some((spec_retry_count(prev) + 1) as u32)
            } else {
                None::<u32>
            })
        }),
{
    let rec = match store.get(uuid) {
        Some(rec) => rec,
        None => {
            return None;
        },
    };
    let outcome = handle_error(Some(rec.status()), err, max_retries);
    match outcome {
        FailureOutcome::Retry { status, retry_count } => {
            let _ = store.update_status(uuid, status);
            Some(retry_count)
        },
        FailureOutcome::Fail { status } => {
            let _ = store.update_status(uuid, status);
            None
        },
    }
}

} // verus!
