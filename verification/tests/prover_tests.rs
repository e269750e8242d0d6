use strata_ol::prover::error::ProverError;
use strata_ol::prover::record::TaskRecord;
use strata_ol::prover::retry::{
    handle_error, micros_to_secs, record_failure, prover_status, schedule_retry, secs_to_micros, should_retry, task_status,
    FailureOutcome, StoredRecord,
};
use strata_ol::prover::store::{InMemoryTaskStore, TaskStore};
use strata_ol::prover::task::{terminal_result, TaskResult, TaskStatus};

#[test]
fn retry_is_allowed_below_the_limit() {
    assert!(should_retry(3, 2));
    assert!(!should_retry(3, 3));
    assert!(!should_retry(0, 0));
}

#[test]
fn schedule_retry_counts_and_exhausts() {
    match schedule_retry(None, "boom", Some(3)) {
        FailureOutcome::Retry { status, retry_count } => {
            assert_eq!(retry_count, 1);
            assert_eq!(status, TaskStatus::TransientFailure { retry_count: 1, error: "boom".to_string() });
        }
        _ => panic!("expected a retry"),
    }
    let prev = TaskStatus::TransientFailure { retry_count: 2, error: "x".to_string() };
    match schedule_retry(Some(&prev), "boom", Some(3)) {
        FailureOutcome::Fail { status } => {
            assert_eq!(status, TaskStatus::PermanentFailure { error: "retries exhausted: boom".to_string() })
        }
        _ => panic!("expected a failure"),
    }
    assert!(matches!(schedule_retry(None, "m", None), FailureOutcome::Fail { .. }));
}

#[test]
fn handle_error_distinguishes_transient_errors() {
    let transient = ProverError::TransientFailure("net".to_string());
    match handle_error(None, &transient, Some(5)) {
        FailureOutcome::Retry { status, .. } => {
            assert_eq!(status, TaskStatus::TransientFailure { retry_count: 1, error: "transient: net".to_string() })
        }
        _ => panic!("expected a retry"),
    }
    let permanent = ProverError::PermanentFailure("bad".to_string());
    match handle_error(None, &permanent, Some(5)) {
        FailureOutcome::Fail { status } => {
            assert_eq!(status, TaskStatus::PermanentFailure { error: "permanent: bad".to_string() })
        }
        _ => panic!("expected a failure"),
    }
    assert!(transient.is_transient() && !transient.is_permanent());
    assert_eq!(ProverError::TaskNotFound("u".to_string()).message(), "task not found: u");
    assert_eq!(ProverError::TaskAlreadyExists("u".to_string()).message(), "task already exists: u");
    assert_eq!(ProverError::Internal("raw".to_string()).message(), "raw");
}

#[test]
fn task_status_predicates() {
    assert!(TaskStatus::Completed.is_terminal());
    assert!(TaskStatus::PermanentFailure { error: String::new() }.is_terminal());
    assert!(!TaskStatus::Pending.is_terminal());
    assert!(TaskStatus::TransientFailure { retry_count: 0, error: String::new() }.is_retriable());
    assert!(TaskStatus::Queued.is_in_progress());
    assert!(TaskStatus::Proving.is_in_progress());
    assert!(!TaskStatus::Pending.is_in_progress());
}

#[test]
fn task_status_classes_are_exclusive() {
    let all = vec![
        TaskStatus::Pending,
        TaskStatus::Queued,
        TaskStatus::Proving,
        TaskStatus::Completed,
        TaskStatus::TransientFailure { retry_count: 2, error: "net".to_string() },
        TaskStatus::PermanentFailure { error: "bad".to_string() },
    ];
    for s in &all {
        let classes = [s.is_terminal(), s.is_retriable(), s.is_in_progress()];
        let count = classes.iter().filter(|c| **c).count();
        if *s == TaskStatus::Pending {
            assert_eq!(count, 0);
        } else {
            assert_eq!(count, 1);
        }
    }
}

#[test]
fn task_results() {
    let c = TaskResult::completed("a".to_string());
    assert!(c.is_completed() && !c.is_failed());
    assert_eq!(c.uuid(), "a");
    let f = TaskResult::failed("b".to_string(), "e".to_string());
    assert!(f.is_failed());
    assert_eq!(terminal_result("a", &TaskStatus::Completed), Some(TaskResult::completed("a".to_string())));
    assert_eq!(
        terminal_result("b", &TaskStatus::PermanentFailure { error: "e".to_string() }),
        Some(TaskResult::failed("b".to_string(), "e".to_string()))
    );
    assert_eq!(terminal_result("c", &TaskStatus::Proving), None);
}

#[test]
fn store_reads_back_what_was_written() {
    let mut store = InMemoryTaskStore::new();
    store.insert(TaskRecord::new("t1".to_string(), TaskStatus::Pending)).unwrap();
    assert!(matches!(
        store.insert(TaskRecord::new("t1".to_string(), TaskStatus::Queued)),
        Err(ProverError::TaskAlreadyExists(_))
    ));
    store.update_status("t1", TaskStatus::Proving).unwrap();
    assert_eq!(store.get("t1").unwrap().status(), &TaskStatus::Proving);
    assert_eq!(task_status(&store, "t1").unwrap(), TaskStatus::Proving);
    assert!(matches!(task_status(&store, "nope"), Err(ProverError::TaskNotFound(_))));
    assert!(matches!(store.update_status("nope", TaskStatus::Queued), Err(ProverError::TaskNotFound(_))));
    store.set_metadata("t1", vec![1, 2]).unwrap();
    assert_eq!(store.get("t1").unwrap().metadata(), Some(&[1u8, 2][..]));
    assert_eq!(store.count(), 1);
    assert_eq!(prover_status(&store).task_count, 1);
}

#[test]
fn store_lists_retriable_and_in_progress() {
    let mut store = InMemoryTaskStore::new();
    store.insert(TaskRecord::new("a".to_string(), TaskStatus::TransientFailure { retry_count: 1, error: "e".to_string() })).unwrap();
    store.insert(TaskRecord::new("b".to_string(), TaskStatus::TransientFailure { retry_count: 1, error: "e".to_string() })).unwrap();
    store.insert(TaskRecord::new("c".to_string(), TaskStatus::Queued)).unwrap();
    store.set_retry_after("a", 100).unwrap();
    store.set_retry_after("b", 300).unwrap();
    let due: Vec<String> = store.list_retriable(200).iter().map(|r| r.uuid().to_string()).collect();
    assert_eq!(due, vec!["a".to_string()]);
    let busy: Vec<String> = store.list_in_progress().iter().map(|r| r.uuid().to_string()).collect();
    assert_eq!(busy, vec!["c".to_string()]);
}

#[test]
fn stored_record_keeps_seconds() {
    assert_eq!(micros_to_secs(3_500_000), 3);
    assert_eq!(secs_to_micros(3), 3_000_000);
    let mut rec = TaskRecord::from_parts("u".to_string(), TaskStatus::Queued, 7_000_000, Some(9_000_000), Some(vec![5]));
    let stored = StoredRecord::from_record(&rec);
    assert_eq!(stored.retry_after_secs, Some(9));
    assert_eq!(stored.metadata, Some(vec![5]));
    let back = stored.to_record("u".to_string());
    assert_eq!(back.uuid(), "u");
    assert_eq!(back.status(), &TaskStatus::Queued);
    assert_eq!(back.retry_after(), Some(9_000_000));
    assert_eq!(back.metadata(), Some(&[5u8][..]));
    rec.set_retry_after(None);
    assert_eq!(rec.retry_after(), None);
}

#[test]
fn record_failure_updates_the_store() {
    let mut store = InMemoryTaskStore::new();
    store.insert(TaskRecord::new("t".to_string(), TaskStatus::Proving)).unwrap();
    let err = ProverError::TransientFailure("io".to_string());
    assert_eq!(record_failure(&mut store, "t", &err, Some(2)), Some(1));
    assert_eq!(
        store.get("t").unwrap().status(),
        &TaskStatus::TransientFailure { retry_count: 1, error: "transient: io".to_string() }
    );
    assert_eq!(record_failure(&mut store, "t", &err, Some(2)), None);
    assert_eq!(
        store.get("t").unwrap().status(),
        &TaskStatus::PermanentFailure { error: "retries exhausted: transient: io".to_string() }
    );
    assert_eq!(record_failure(&mut store, "missing", &err, Some(2)), None);
    assert_eq!(store.count(), 1);
}
