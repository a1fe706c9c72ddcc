//! Tests of the job registry's atomic admission step and lifecycle
//! transitions, and of the pool's counters.

use workers::job::{FailureCause, JobStatus};
use workers::pool::Pool;
use workers::registry::{RegisterOutcome, Registry, TransitionError};

fn s(text: &str) -> String {
    String::from(text)
}

#[test]
fn register_creates_once_and_then_returns_the_live_job() {
    let mut registry = Registry::new();
    assert!(registry.get(&s("a")).is_none());

    let first = registry.register_or_get(&s("a"), &s("x.png"), 1);
    assert_eq!(first, RegisterOutcome::Created);

    let second = registry.register_or_get(&s("a"), &s("x.png"), 2);
    assert_eq!(second, RegisterOutcome::Existing { status: JobStatus::Pending });

    let job = registry.get(&s("a")).expect("job must be registered");
    assert_eq!(job.id, s("a"));
    assert_eq!(job.payload_descriptor, s("x.png"));
    assert_eq!(job.status, JobStatus::Pending);
    assert_eq!(job.submitted_at, 1);
    assert_eq!(job.started_at, None);
    assert_eq!(job.finished_at, None);
    assert_eq!(job.result, None);
}

#[test]
fn terminal_id_registration_is_a_conflict() {
    let mut registry = Registry::new();
    registry.register_or_get(&s("a"), &s("x.png"), 1);
    registry.mark_running(&s("a"), 2).expect("pending job starts");
    registry.mark_completed(&s("a"), s("ok"), 3).expect("running job completes");

    let again = registry.register_or_get(&s("a"), &s("x.png"), 4);
    assert_eq!(
        again,
        RegisterOutcome::TerminalConflict { status: JobStatus::Completed }
    );
}

#[test]
fn transitions_follow_the_lifecycle_only() {
    let mut registry = Registry::new();
    assert_eq!(registry.mark_running(&s("a"), 1), Err(TransitionError::NotFound));

    registry.register_or_get(&s("a"), &s("x.png"), 1);
    assert_eq!(
        registry.mark_completed(&s("a"), s("ok"), 2),
        Err(TransitionError::InvalidTransition)
    );
    assert_eq!(registry.mark_running(&s("a"), 2), Ok(()));
    assert_eq!(
        registry.mark_running(&s("a"), 3),
        Err(TransitionError::InvalidTransition)
    );
    assert_eq!(registry.mark_completed(&s("a"), s("ok"), 4), Ok(()));
    assert_eq!(
        registry.mark_failed(&s("a"), FailureCause::Collaborator, s("late"), 5),
        Err(TransitionError::InvalidTransition)
    );

    let job = registry.get(&s("a")).expect("job must be registered");
    assert_eq!(job.status, JobStatus::Completed);
    assert_eq!(job.started_at, Some(2));
    assert_eq!(job.finished_at, Some(4));
}

#[test]
fn failure_records_cause_and_detail() {
    let mut registry = Registry::new();
    registry.register_or_get(&s("b"), &s("y.png"), 1);
    registry.mark_running(&s("b"), 2).expect("pending job starts");
    registry
        .mark_failed(&s("b"), FailureCause::Timeout, s("exceeded bound"), 7)
        .expect("running job fails");

    let job = registry.get(&s("b")).expect("job must be registered");
    assert_eq!(job.status, JobStatus::Failed);
    assert_eq!(job.cause, Some(FailureCause::Timeout));
    assert_eq!(job.result, Some(s("exceeded bound")));
    assert_eq!(job.finished_at, Some(7));
}

#[test]
fn pool_counters_track_slots_and_queue() {
    let mut pool = Pool::new(2, 1);
    assert!(pool.has_slot());
    assert_eq!(pool.in_flight(), 0);
    assert_eq!(pool.queued(), 0);

    pool.take_slot();
    pool.take_slot();
    assert!(!pool.has_slot());
    assert!(pool.can_queue());
    pool.enqueue(s("w"));
    assert!(!pool.can_queue());
    assert_eq!(pool.in_flight(), 2);
    assert_eq!(pool.queued(), 1);

    let promoted = pool.release().expect("the queued id takes the slot");
    assert_eq!(promoted, s("w"));
    assert_eq!(pool.in_flight(), 2);
    assert_eq!(pool.queued(), 0);

    assert!(pool.release().is_none());
    assert_eq!(pool.in_flight(), 1);
}
