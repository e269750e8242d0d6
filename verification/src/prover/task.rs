//! Task lifecycle types.

use vstd::prelude::*;

verus! {

/// Status of a proof task in the lifecycle.
#[derive(Debug, Clone, PartialEq, Eq)]
pub enum TaskStatus {
    Pending,
    Queued,
    Proving,
    Completed,
    TransientFailure { retry_count: u32, error: String },
    PermanentFailure { error: String },
}

/// Mathematical value of a [`TaskStatus`]: the error texts as character
/// sequences.
pub enum TaskStatusView {
    Pending,
    Queued,
    Proving,
    Completed,
    TransientFailure { retry_count: u32, error: Seq<char> },
    PermanentFailure { error: Seq<char> },
}

impl View for TaskStatus {
    type V = TaskStatusView;

    open spec fn view(&self) -> TaskStatusView {
        match self {
            TaskStatus::Pending => TaskStatusView::Pending,
            TaskStatus::Queued => TaskStatusView::Queued,
            TaskStatus::Proving => TaskStatusView::Proving,
            TaskStatus::Completed => TaskStatusView::Completed,
            TaskStatus::TransientFailure { retry_count, error } => TaskStatusView::TransientFailure {
                retry_count: *retry_count,
                error: error@,
            },
            TaskStatus::PermanentFailure { error } => TaskStatusView::PermanentFailure {
                error: error@,
            },
        }
    }
}

impl TaskStatusView {
    /// Completed and permanently failed tasks never change again.
    pub open spec fn terminal(self) -> bool {
        self is Completed || self is PermanentFailure
    }

    /// A transiently failed task may be proved again.
    pub open spec fn retriable(self) -> bool {
        self is TransientFailure
    }

    /// A queued or proving task is being worked on.
    pub open spec fn in_progress(self) -> bool {
        self is Queued || self is Proving
    }
}

/// A status is in at most one of the classes terminal, retriable and in
/// progress; a pending task is in none of them.
pub proof fn lemma_status_classes_exclusive(s: TaskStatusView)
    ensures
        !(s.terminal() && s.retriable()),
        !(s.terminal() && s.in_progress()),
        !(s.retriable() && s.in_progress()),
        s is Pending ==> !s.terminal() && !s.retriable() && !s.in_progress(),
{
}

impl TaskStatus {
    /// A copy with the same value.
    pub fn duplicate(&self) -> (r: TaskStatus)
        ensures
            r@ == self@,
    {
        match self {
            TaskStatus::Pending => TaskStatus::Pending,
            TaskStatus::Queued => TaskStatus::Queued,
            TaskStatus::Proving => TaskStatus::Proving,
            TaskStatus::Completed => TaskStatus::Completed,
            TaskStatus::TransientFailure { retry_count, error } => TaskStatus::TransientFailure {
                retry_count: *retry_count,
                error: error.clone(),
            },
            TaskStatus::PermanentFailure { error } => TaskStatus::PermanentFailure {
                error: error.clone(),
            },
        }
    }

    pub fn is_terminal(&self) -> (r: bool)
        ensures
            r == self@.terminal(),
    {
        match self {
            TaskStatus::Completed => true,
            TaskStatus::PermanentFailure { .. } => true,
            _ => false,
        }
    }

    pub fn is_retriable(&self) -> (r: bool)
        ensures
            r == self@.retriable(),
    {
        match self {
            TaskStatus::TransientFailure { .. } => true,
            _ => false,
        }
    }

    pub fn is_in_progress(&self) -> (r: bool)
        ensures
            r == self@.in_progress(),
    {
        match self {
            TaskStatus::Queued => true,
            TaskStatus::Proving => true,
            _ => false,
        }
    }
}

/// Outcome of a completed (or failed) task.
#[derive(Debug, Clone, PartialEq, Eq)]
pub enum TaskResult {
    Completed { uuid: String },
    Failed { uuid: String, error: String },
}

impl TaskResult {
    pub fn completed(uuid: String) -> (r: TaskResult)
        ensures
            r matches TaskResult::Completed { uuid: u } && u@ == uuid@,
    {
        TaskResult::Completed { uuid }
    }

    pub fn failed(uuid: String, error: String) -> (r: TaskResult)
        ensures
            r matches TaskResult::Failed { uuid: u, error: e } && u@ == uuid@ && e@ == error@,
    {
        TaskResult::Failed { uuid, error }
    }

    pub fn is_completed(&self) -> (r: bool)
        ensures
            r == (self is Completed),
    {
        match self {
            TaskResult::Completed { .. } => true,
            TaskResult::Failed { .. } => false,
        }
    }

    pub fn is_failed(&self) -> (r: bool)
        ensures
            r == (self is Failed),
    {
        match self {
            TaskResult::Completed { .. } => false,
            TaskResult::Failed { .. } => true,
        }
    }

    /// The task's identifier, whichever the outcome.
    pub open spec fn spec_uuid(&self) -> Seq<char> {
        match self {
            TaskResult::Completed { uuid } => uuid@,
            TaskResult::Failed { uuid, .. } => uuid@,
        }
    }

    pub fn uuid(&self) -> (r: &str)
        ensures
            r@ == self.spec_uuid(),
    {
        match self {
            TaskResult::Completed { uuid } => uuid.as_str(),
            TaskResult::Failed { uuid, .. } => uuid.as_str(),
        }
    }
}

/// Builds the outcome that waiters on task `uuid` receive, if its status is
/// terminal.
pub fn terminal_result(uuid: &str, status: &TaskStatus) -> (r: Option<TaskResult>)
    ensures
        r is Some <==> status@.terminal(),
        status@ is Completed ==> (r matches Some(TaskResult::Completed { uuid: u }) && u@ == uuid@),
        status@ matches TaskStatusView::PermanentFailure { error } ==> (r matches Some(
            TaskResult::Failed { uuid: u, error: e },
        ) && u@ == uuid@ && e@ == error),
{
    match status {
        TaskStatus::Completed => Some(TaskResult::completed(uuid.to_owned())),
        TaskStatus::PermanentFailure { error } => Some(
            TaskResult::failed(uuid.to_owned(), error.clone()),
        ),
        _ => None,
    }
}

} // verus!
