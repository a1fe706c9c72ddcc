//! End-to-end tests of the dispatch engine: admission, deduplication,
//! backpressure, lifecycle recording and the health snapshot.

use workers::engine::{Engine, RejectReason, SubmitOutcome};
use workers::job::{FailureCause, JobOutcome, JobStatus};
use workers::registry::TransitionError;

fn s(text: &str) -> String {
    String::from(text)
}

#[test]
fn admit_then_resubmit_then_complete() {
    let mut engine = Engine::new(2, 2);
    let outcome = engine.submit(s("a"), s("x.png"), 10);
    assert_eq!(outcome, SubmitOutcome::Admitted { started: true });

    let duplicate = engine.submit(s("a"), s("x.png"), 11);
    assert_eq!(
        duplicate,
        SubmitOutcome::AlreadyInFlight { status: JobStatus::Running }
    );

    let finished = engine.job_finished(&s("a"), JobOutcome::Success { result: s("done") }, 12);
    assert!(matches!(finished, Ok(None)));

    let job = engine.get(&s("a")).expect("job must be registered");
    assert_eq!(job.status, JobStatus::Completed);
    assert_eq!(job.result, Some(s("done")));
    assert_eq!(job.submitted_at, 10);
    assert_eq!(job.started_at, Some(10));
    assert_eq!(job.finished_at, Some(12));
    assert_eq!(job.cause, None);
}

#[test]
fn empty_id_is_invalid_input() {
    let mut engine = Engine::new(2, 2);
    let outcome = engine.submit(s(""), s("x.png"), 1);
    assert_eq!(
        outcome,
        SubmitOutcome::Rejected { reason: RejectReason::InvalidInput }
    );
    assert!(engine.get(&s("")).is_none());
}

#[test]
fn empty_payload_is_invalid_input() {
    let mut engine = Engine::new(2, 2);
    let outcome = engine.submit(s("a"), s(""), 1);
    assert_eq!(
        outcome,
        SubmitOutcome::Rejected { reason: RejectReason::InvalidInput }
    );
    assert!(engine.get(&s("a")).is_none());
}

#[test]
fn timeout_marks_failed_and_frees_the_slot() {
    let mut engine = Engine::new(1, 0);
    let outcome = engine.submit(s("b"), s("slow.png"), 1);
    assert_eq!(outcome, SubmitOutcome::Admitted { started: true });

    let finished = engine.job_finished(
        &s("b"),
        JobOutcome::Failure { cause: FailureCause::Timeout, detail: s("exceeded bound") },
        5,
    );
    assert!(matches!(finished, Ok(None)));

    let job = engine.get(&s("b")).expect("job must be registered");
    assert_eq!(job.status, JobStatus::Failed);
    assert_eq!(job.cause, Some(FailureCause::Timeout));
    assert_eq!(job.result, Some(s("exceeded bound")));

    // the slot is usable again at once
    let next = engine.submit(s("c"), s("fast.png"), 6);
    assert_eq!(next, SubmitOutcome::Admitted { started: true });
}

#[test]
fn collaborator_failure_is_recorded() {
    let mut engine = Engine::new(1, 0);
    engine.submit(s("d"), s("bad.png"), 1);
    let finished = engine.job_finished(
        &s("d"),
        JobOutcome::Failure { cause: FailureCause::Collaborator, detail: s("decode error") },
        2,
    );
    assert!(matches!(finished, Ok(None)));
    let job = engine.get(&s("d")).expect("job must be registered");
    assert_eq!(job.status, JobStatus::Failed);
    assert_eq!(job.cause, Some(FailureCause::Collaborator));
    assert_eq!(job.result, Some(s("decode error")));
}

#[test]
fn saturation_admits_exactly_capacity_plus_queue() {
    let mut engine = Engine::new(1, 1);
    assert_eq!(
        engine.submit(s("j1"), s("one.png"), 1),
        SubmitOutcome::Admitted { started: true }
    );
    assert_eq!(
        engine.submit(s("j2"), s("two.png"), 2),
        SubmitOutcome::Admitted { started: false }
    );
    assert_eq!(
        engine.submit(s("j3"), s("three.png"), 3),
        SubmitOutcome::Rejected { reason: RejectReason::Saturated }
    );
    let health = engine.health();
    assert_eq!(health.in_flight, 1);
    assert_eq!(health.queued, 1);
}

#[test]
fn duplicate_of_a_queued_job_is_already_in_flight() {
    let mut engine = Engine::new(1, 1);
    engine.submit(s("a"), s("one.png"), 1);
    assert_eq!(
        engine.submit(s("b"), s("two.png"), 2),
        SubmitOutcome::Admitted { started: false }
    );
    assert_eq!(
        engine.submit(s("b"), s("two.png"), 3),
        SubmitOutcome::AlreadyInFlight { status: JobStatus::Pending }
    );
}

#[test]
fn terminal_id_resubmission_is_a_conflict() {
    let mut engine = Engine::new(2, 2);
    engine.submit(s("a"), s("x.png"), 1);
    engine
        .job_finished(&s("a"), JobOutcome::Success { result: s("ok") }, 2)
        .expect("first report is accepted");
    assert_eq!(
        engine.submit(s("a"), s("x.png"), 3),
        SubmitOutcome::Rejected { reason: RejectReason::Conflict }
    );
    // the job stays exactly as it finished
    let job = engine.get(&s("a")).expect("job must be registered");
    assert_eq!(job.status, JobStatus::Completed);
}

#[test]
fn second_completion_report_is_refused() {
    let mut engine = Engine::new(2, 2);
    engine.submit(s("a"), s("x.png"), 1);
    engine
        .job_finished(&s("a"), JobOutcome::Success { result: s("ok") }, 2)
        .expect("first report is accepted");
    let again = engine.job_finished(&s("a"), JobOutcome::Success { result: s("again") }, 3);
    assert!(matches!(again, Err(TransitionError::InvalidTransition)));
    let job = engine.get(&s("a")).expect("job must be registered");
    assert_eq!(job.status, JobStatus::Completed);
    assert_eq!(job.result, Some(s("ok")));
    assert_eq!(job.finished_at, Some(2));
}

#[test]
fn finish_of_unknown_id_is_not_found() {
    let mut engine = Engine::new(1, 1);
    let report = engine.job_finished(&s("ghost"), JobOutcome::Success { result: s("ok") }, 1);
    assert!(matches!(report, Err(TransitionError::NotFound)));
}

#[test]
fn queued_jobs_are_promoted_in_submission_order() {
    let mut engine = Engine::new(1, 2);
    engine.submit(s("a"), s("one.png"), 1);
    engine.submit(s("b"), s("two.png"), 2);
    engine.submit(s("c"), s("three.png"), 3);

    let next = engine
        .job_finished(&s("a"), JobOutcome::Success { result: s("ok") }, 4)
        .expect("report is accepted")
        .expect("a queued job takes the slot");
    assert_eq!(next.id, s("b"));
    assert_eq!(next.payload_descriptor, s("two.png"));
    let job_b = engine.get(&s("b")).expect("job must be registered");
    assert_eq!(job_b.status, JobStatus::Running);
    assert_eq!(job_b.started_at, Some(4));

    let health = engine.health();
    assert_eq!(health.in_flight, 1);
    assert_eq!(health.queued, 1);

    let next = engine
        .job_finished(&s("b"), JobOutcome::Success { result: s("ok") }, 5)
        .expect("report is accepted")
        .expect("the last queued job takes the slot");
    assert_eq!(next.id, s("c"));

    let none = engine
        .job_finished(&s("c"), JobOutcome::Success { result: s("ok") }, 6)
        .expect("report is accepted");
    assert!(none.is_none());

    let health = engine.health();
    assert_eq!(health.in_flight, 0);
    assert_eq!(health.queued, 0);
}

#[test]
fn health_answers_under_full_load() {
    let mut engine = Engine::new(2, 1);
    engine.submit(s("a"), s("one.png"), 1);
    engine.submit(s("b"), s("two.png"), 2);
    engine.submit(s("c"), s("three.png"), 3);
    let health = engine.health();
    assert_eq!(health.in_flight, 2);
    assert_eq!(health.queued, 1);
    // a fresh engine reports an idle pool
    let idle = Engine::new(2, 1).health();
    assert_eq!(idle.in_flight, 0);
    assert_eq!(idle.queued, 0);
}

#[test]
fn distinct_ids_do_not_interfere() {
    let mut engine = Engine::new(2, 0);
    assert_eq!(
        engine.submit(s("a"), s("one.png"), 1),
        SubmitOutcome::Admitted { started: true }
    );
    assert_eq!(
        engine.submit(s("b"), s("two.png"), 2),
        SubmitOutcome::Admitted { started: true }
    );
    engine
        .job_finished(&s("a"), JobOutcome::Success { result: s("ok") }, 3)
        .expect("report is accepted");
    let job_b = engine.get(&s("b")).expect("job must be registered");
    assert_eq!(job_b.status, JobStatus::Running);
}
