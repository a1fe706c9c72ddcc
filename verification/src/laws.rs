//! The engine's laws: properties that hold of every reachable state and
//! every sequence of operations, stated over the engine's mathematical
//! model and proved once and for all.

use vstd::prelude::*;
use crate::engine::{
    finish_allowed, finish_post, finished_job, submit_outcome, submit_post, EngineView,
    RejectReason, SubmitOutcome,
};
use crate::job::{FailureCause, JobOutcomeView, JobStatus, JobView};
use crate::registry::{
    has_id, id_index, job_of, lemma_count_running_at_least_one, lemma_count_running_push,
    lemma_count_running_update, lemma_id_index_is, lemma_push_preserves_lookup,
    lemma_push_preserves_wf, lemma_update_preserves_lookup, lemma_update_preserves_wf,
};

verus! {

/// A job whose identity is absent stays absent when a differently named job
/// is appended.
pub proof fn lemma_push_keeps_fresh(jobs: Seq<JobView>, j: JobView, id: Seq<char>)
    requires
        !has_id(jobs, id),
        id != j.id,
    ensures
        !has_id(jobs.push(j), id),
{
    assert forall|i: int| 0 <= i < jobs.push(j).len() implies jobs.push(j)[i].id != id by {
        if i < jobs.len() {
            assert(jobs.push(j)[i] == jobs[i]);
        } else {
            assert(jobs.push(j)[i] == j);
        }
    }
}

/// Every submission preserves the engine's invariant.
pub proof fn law_submit_preserves_inv(s: EngineView, id: Seq<char>, payload_descriptor: Seq<char>, now: u64)
    requires
        s.inv(),
    ensures
        submit_post(s, id, payload_descriptor, now).inv(),
{
    if id.len() == 0 || payload_descriptor.len() == 0 || has_id(s.jobs, id) {
        // nothing changes
    } else if s.in_flight < s.capacity {
        let started = crate::registry::fresh_job(id, payload_descriptor, now).marked_running(now);
        lemma_push_preserves_wf(s.jobs, started);
        lemma_count_running_push(s.jobs, started);
        assert(s.queue.len() == 0);
    } else if s.queue.len() < s.queue_bound {
        let pending = crate::registry::fresh_job(id, payload_descriptor, now);
        let post = submit_post(s, id, payload_descriptor, now);
        lemma_push_preserves_wf(s.jobs, pending);
        lemma_count_running_push(s.jobs, pending);
        assert forall|i: int|
            0 <= i < post.queue.len() implies has_id(post.jobs, #[trigger] post.queue[i])
            && job_of(post.jobs, post.queue[i]).status == JobStatus::Pending by {
            if i < s.queue.len() {
                assert(post.queue[i] == s.queue[i]);
                lemma_push_preserves_lookup(s.jobs, pending, s.queue[i]);
            } else {
                assert(post.queue[i] == id);
                lemma_id_index_is(s.jobs.push(pending), id, s.jobs.len() as int);
            }
        }
        assert forall|i: int, j: int|
            0 <= i < j < post.queue.len() implies post.queue[i] != post.queue[j] by {
            if j == s.queue.len() {
                assert(post.queue[i] == s.queue[i]);
                assert(has_id(s.jobs, s.queue[i]));
            }
        }
    } else {
        // saturated: nothing changes
    }
}

/// Every completion report preserves the engine's invariant.
pub proof fn law_finish_preserves_inv(s: EngineView, id: Seq<char>, outcome: JobOutcomeView, now: u64)
    requires
        s.inv(),
    ensures
        finish_post(s, id, outcome, now).inv(),
{
    if finish_allowed(s, id) is Ok {
        let idx = id_index(s.jobs, id);
        let done = finished_job(job_of(s.jobs, id), outcome, now);
        assert(has_id(s.jobs, id));
        assert(0 <= idx < s.jobs.len() && s.jobs[idx].id == id);
        lemma_count_running_at_least_one(s.jobs, idx);
        lemma_update_preserves_wf(s.jobs, idx, done);
        lemma_count_running_update(s.jobs, idx, done);
        if s.queue.len() == 0 {
            // the slot simply frees up
        } else {
            let post = finish_post(s, id, outcome, now);
            let recorded = s.jobs.update(idx, done);
            let next = s.queue[0];
            assert(has_id(s.jobs, next) && job_of(s.jobs, next).status == JobStatus::Pending);
            assert(next != id);
            lemma_update_preserves_lookup(s.jobs, idx, done, next);
            let nidx = id_index(recorded, next);
            let started = job_of(recorded, next).marked_running(now);
            lemma_update_preserves_wf(recorded, nidx, started);
            lemma_count_running_update(recorded, nidx, started);
            assert forall|i: int|
                0 <= i < post.queue.len() implies has_id(post.jobs, #[trigger] post.queue[i])
                && job_of(post.jobs, post.queue[i]).status == JobStatus::Pending by {
                let qid = post.queue[i];
                assert(qid == s.queue[i + 1]);
                assert(has_id(s.jobs, qid) && job_of(s.jobs, qid).status == JobStatus::Pending);
                assert(qid != id);
                assert(qid != next);
                lemma_update_preserves_lookup(s.jobs, idx, done, qid);
                assert(recorded[idx].id == s.jobs[idx].id);
                lemma_update_preserves_lookup(recorded, nidx, started, qid);
                assert(recorded[nidx].id == next);
            }
            assert forall|i: int, j: int|
                0 <= i < j < post.queue.len() implies post.queue[i] != post.queue[j] by {
                assert(post.queue[i] == s.queue[i + 1] && post.queue[j] == s.queue[j + 1]);
            }
        }
    }
}

/// Duplicate submissions are admitted exactly once: after a submission of
/// `id` is admitted, every further submission of the same identity, as long
/// as the job is live, answers `AlreadyInFlight` with the job's current
/// status and changes nothing — so exactly one execution is ever scheduled
/// for a given identity.
pub proof fn law_duplicate_submission(s: EngineView, id: Seq<char>, payload_descriptor: Seq<char>, payload_again: Seq<char>, now: u64, later: u64)
    requires
        s.inv(),
        submit_outcome(s, id, payload_descriptor) matches SubmitOutcome::Admitted { .. },
        payload_again.len() > 0,
    ensures
        has_id(submit_post(s, id, payload_descriptor, now).jobs, id),
        !job_of(submit_post(s, id, payload_descriptor, now).jobs, id).status.is_terminal(),
        submit_outcome(submit_post(s, id, payload_descriptor, now), id, payload_again) == (
        SubmitOutcome::AlreadyInFlight {
            status: job_of(submit_post(s, id, payload_descriptor, now).jobs, id).status,
        }),
        submit_post(submit_post(s, id, payload_descriptor, now), id, payload_again, later)
            == submit_post(s, id, payload_descriptor, now),
{
    let post = submit_post(s, id, payload_descriptor, now);
    if s.in_flight < s.capacity {
        let started = crate::registry::fresh_job(id, payload_descriptor, now).marked_running(now);
        lemma_push_preserves_wf(s.jobs, started);
        lemma_id_index_is(post.jobs, id, s.jobs.len() as int);
    } else {
        let pending = crate::registry::fresh_job(id, payload_descriptor, now);
        lemma_push_preserves_wf(s.jobs, pending);
        lemma_id_index_is(post.jobs, id, s.jobs.len() as int);
    }
}

/// How often a burst of `n` submissions, all of one identity and one
/// payload descriptor, is admitted.
pub open spec fn same_id_admitted_count(s: EngineView, id: Seq<char>, payload_descriptor: Seq<char>, now: u64, n: nat) -> int
    decreases n,
{
    if n == 0 {
        0
    } else {
        (if submit_outcome(s, id, payload_descriptor) matches SubmitOutcome::Admitted { .. } {
            1int
        } else {
            0int
        }) + same_id_admitted_count(
            submit_post(s, id, payload_descriptor, now),
            id,
            payload_descriptor,
            now,
            (n - 1) as nat,
        )
    }
}

/// A submission of an identity the registry already knows is never
/// admitted, and changes nothing — however often it is repeated.
pub proof fn lemma_known_id_never_admitted(s: EngineView, id: Seq<char>, payload_descriptor: Seq<char>, now: u64, n: nat)
    requires
        has_id(s.jobs, id),
    ensures
        same_id_admitted_count(s, id, payload_descriptor, now, n) == 0,
    decreases n,
{
    if n > 0 {
        assert(submit_post(s, id, payload_descriptor, now) == s);
        lemma_known_id_never_admitted(s, id, payload_descriptor, now, (n - 1) as nat);
    }
}

/// Of any burst of submissions of one identity, exactly one is admitted:
/// the first one that finds the identity fresh; every repetition after it
/// is answered without scheduling anything.
pub proof fn law_duplicate_burst(s: EngineView, id: Seq<char>, payload_descriptor: Seq<char>, now: u64, n: nat)
    requires
        s.inv(),
        n >= 1,
        submit_outcome(s, id, payload_descriptor) matches SubmitOutcome::Admitted { .. },
    ensures
        same_id_admitted_count(s, id, payload_descriptor, now, n) == 1,
{
    let s1 = submit_post(s, id, payload_descriptor, now);
    assert(s1.jobs[s.jobs.len() as int].id == id);
    assert(has_id(s1.jobs, id));
    lemma_known_id_never_admitted(s1, id, payload_descriptor, now, (n - 1) as nat);
}

/// Lifecycle is monotonic across submissions: a job that reached a terminal
/// status is never changed, in particular never observed `Pending` or
/// `Running` again, by any later submission.
pub proof fn law_terminal_is_final_submit(s: EngineView, id: Seq<char>, payload_descriptor: Seq<char>, now: u64, settled: Seq<char>)
    requires
        s.inv(),
        has_id(s.jobs, settled),
        job_of(s.jobs, settled).status.is_terminal(),
    ensures
        has_id(submit_post(s, id, payload_descriptor, now).jobs, settled),
        job_of(submit_post(s, id, payload_descriptor, now).jobs, settled) == job_of(
            s.jobs,
            settled,
        ),
{
    if id.len() == 0 || payload_descriptor.len() == 0 || has_id(s.jobs, id) {
        // nothing changes
    } else if s.in_flight < s.capacity {
        let started = crate::registry::fresh_job(id, payload_descriptor, now).marked_running(now);
        lemma_push_preserves_lookup(s.jobs, started, settled);
    } else if s.queue.len() < s.queue_bound {
        let pending = crate::registry::fresh_job(id, payload_descriptor, now);
        lemma_push_preserves_lookup(s.jobs, pending, settled);
    } else {
        // saturated: nothing changes
    }
}

/// Lifecycle is monotonic across completion reports: a job that reached a
/// terminal status is never changed by any later report, for its own
/// identity (the report is refused) or for any other.
pub proof fn law_terminal_is_final_finish(s: EngineView, id: Seq<char>, outcome: JobOutcomeView, now: u64, settled: Seq<char>)
    requires
        s.inv(),
        has_id(s.jobs, settled),
        job_of(s.jobs, settled).status.is_terminal(),
    ensures
        has_id(finish_post(s, id, outcome, now).jobs, settled),
        job_of(finish_post(s, id, outcome, now).jobs, settled) == job_of(s.jobs, settled),
{
    if finish_allowed(s, id) is Ok {
        let idx = id_index(s.jobs, id);
        let done = finished_job(job_of(s.jobs, id), outcome, now);
        assert(0 <= idx < s.jobs.len() && s.jobs[idx].id == id);
        assert(settled != id);
        lemma_update_preserves_lookup(s.jobs, idx, done, settled);
        if s.queue.len() > 0 {
            let recorded = s.jobs.update(idx, done);
            let next = s.queue[0];
            assert(has_id(s.jobs, next) && job_of(s.jobs, next).status == JobStatus::Pending);
            assert(next != id);
            lemma_update_preserves_lookup(s.jobs, idx, done, next);
            let nidx = id_index(recorded, next);
            let started = job_of(recorded, next).marked_running(now);
            assert(settled != next);
            lemma_update_preserves_lookup(recorded, nidx, started, settled);
            assert(recorded[nidx].id == next);
        }
    }
}

/// Admission control is exact: a fresh, valid submission is admitted when
/// and only when the pool's total load is below `capacity + queue_bound`,
/// and is answered `Saturated` when and only when the load has reached that
/// bound.
pub proof fn law_saturation(s: EngineView, id: Seq<char>, payload_descriptor: Seq<char>)
    requires
        s.inv(),
        id.len() > 0,
        payload_descriptor.len() > 0,
        !has_id(s.jobs, id),
    ensures
        (submit_outcome(s, id, payload_descriptor) matches SubmitOutcome::Admitted { .. }) <==> s.load()
            < s.capacity + s.queue_bound,
        (submit_outcome(s, id, payload_descriptor) == (SubmitOutcome::Rejected {
            reason: RejectReason::Saturated,
        })) <==> s.load() >= s.capacity + s.queue_bound,
{
}

/// How a whole burst of fresh submissions unfolds, one identity at a time,
/// all against one payload descriptor and one clock reading.
pub open spec fn submit_all(s: EngineView, ids: Seq<Seq<char>>, payload_descriptor: Seq<char>, now: u64) -> EngineView
    decreases ids.len(),
{
    if ids.len() == 0 {
        s
    } else {
        submit_all(submit_post(s, ids[0], payload_descriptor, now), ids.drop_first(), payload_descriptor, now)
    }
}

/// How many submissions of such a burst are admitted.
pub open spec fn admitted_count(s: EngineView, ids: Seq<Seq<char>>, payload_descriptor: Seq<char>, now: u64) -> int
    decreases ids.len(),
{
    if ids.len() == 0 {
        0
    } else {
        (if submit_outcome(s, ids[0], payload_descriptor) matches SubmitOutcome::Admitted { .. } {
            1int
        } else {
            0int
        }) + admitted_count(
            submit_post(s, ids[0], payload_descriptor, now),
            ids.drop_first(),
            payload_descriptor,
            now,
        )
    }
}

/// Saturation counts exactly: of a burst of distinct, fresh, valid
/// submissions, precisely as many are admitted as the pool has free places
/// (`capacity + queue_bound` minus the current load); every submission past
/// that bound is turned away.
pub proof fn law_saturation_batch(s: EngineView, ids: Seq<Seq<char>>, payload_descriptor: Seq<char>, now: u64)
    requires
        s.inv(),
        payload_descriptor.len() > 0,
        forall|i: int| 0 <= i < ids.len() ==> (#[trigger] ids[i]).len() > 0 && !has_id(s.jobs, ids[i]),
        forall|i: int, j: int| 0 <= i < j < ids.len() ==> ids[i] != ids[j],
    ensures
        admitted_count(s, ids, payload_descriptor, now) == if ids.len() as int <= s.capacity
            + s.queue_bound - s.load() {
            ids.len() as int
        } else {
            s.capacity + s.queue_bound - s.load()
        },
    decreases ids.len(),
{
    if ids.len() > 0 {
        let first = ids[0];
        let rest = ids.drop_first();
        let s1 = submit_post(s, first, payload_descriptor, now);
        law_submit_preserves_inv(s, first, payload_descriptor, now);
        law_saturation(s, first, payload_descriptor);
        if s.load() < s.capacity + s.queue_bound {
            let newcomer = if s.in_flight < s.capacity {
                crate::registry::fresh_job(first, payload_descriptor, now).marked_running(now)
            } else {
                crate::registry::fresh_job(first, payload_descriptor, now)
            };
            assert(s1.jobs == s.jobs.push(newcomer));
            assert(s1.load() == s.load() + 1);
            assert forall|i: int|
                0 <= i < rest.len() implies (#[trigger] rest[i]).len() > 0 && !has_id(
                s1.jobs,
                rest[i],
            ) by {
                assert(rest[i] == ids[i + 1]);
                lemma_push_keeps_fresh(s.jobs, newcomer, ids[i + 1]);
            }
            assert forall|i: int, j: int|
                0 <= i < j < rest.len() implies rest[i] != rest[j] by {
                assert(rest[i] == ids[i + 1] && rest[j] == ids[j + 1]);
            }
            law_saturation_batch(s1, rest, payload_descriptor, now);
        } else {
            assert(s1 == s);
            assert forall|i: int|
                0 <= i < rest.len() implies (#[trigger] rest[i]).len() > 0 && !has_id(
                s1.jobs,
                rest[i],
            ) by {
                assert(rest[i] == ids[i + 1]);
            }
            assert forall|i: int, j: int|
                0 <= i < j < rest.len() implies rest[i] != rest[j] by {
                assert(rest[i] == ids[i + 1] && rest[j] == ids[j + 1]);
            }
            law_saturation_batch(s1, rest, payload_descriptor, now);
        }
    }
}

/// An accepted completion report settles exactly the reported job — in
/// particular a timed-out collaborator call leaves the job `Failed` with
/// cause `Timeout` — and lowers the pool's load by one, so the freed place
/// is immediately usable by the next fresh submission.
pub proof fn law_finish_records_outcome(s: EngineView, id: Seq<char>, outcome: JobOutcomeView, now: u64)
    requires
        s.inv(),
        finish_allowed(s, id) is Ok,
    ensures
        has_id(finish_post(s, id, outcome, now).jobs, id),
        job_of(finish_post(s, id, outcome, now).jobs, id) == finished_job(
            job_of(s.jobs, id),
            outcome,
            now,
        ),
        finish_post(s, id, outcome, now).load() == s.load() - 1,
{
    let idx = id_index(s.jobs, id);
    let done = finished_job(job_of(s.jobs, id), outcome, now);
    assert(0 <= idx < s.jobs.len() && s.jobs[idx].id == id);
    lemma_update_preserves_lookup(s.jobs, idx, done, id);
    if s.queue.len() > 0 {
        let recorded = s.jobs.update(idx, done);
        let next = s.queue[0];
        assert(has_id(s.jobs, next) && job_of(s.jobs, next).status == JobStatus::Pending);
        assert(next != id);
        lemma_update_preserves_lookup(s.jobs, idx, done, next);
        let nidx = id_index(recorded, next);
        let started = job_of(recorded, next).marked_running(now);
        lemma_update_preserves_lookup(recorded, nidx, started, id);
        assert(recorded[nidx].id == next);
    }
}

/// The timeout law in one piece: a job whose collaborator call exceeded its
/// bound is recorded `Failed` with cause `Timeout`, and the engine's load
/// drops by one.
pub proof fn law_timeout_marks_failed(s: EngineView, id: Seq<char>, detail: Seq<char>, now: u64)
    requires
        s.inv(),
        finish_allowed(s, id) is Ok,
    ensures
        job_of(
            finish_post(
                s,
                id,
                (JobOutcomeView::Failure { cause: FailureCause::Timeout, detail }),
                now,
            ).jobs,
            id,
        ).status == JobStatus::Failed,
        job_of(
            finish_post(
                s,
                id,
                (JobOutcomeView::Failure { cause: FailureCause::Timeout, detail }),
                now,
            ).jobs,
            id,
        ).cause == Some(FailureCause::Timeout),
        finish_post(
            s,
            id,
            (JobOutcomeView::Failure { cause: FailureCause::Timeout, detail }),
            now,
        ).load() == s.load() - 1,
{
    law_finish_records_outcome(
        s,
        id,
        JobOutcomeView::Failure { cause: FailureCause::Timeout, detail },
        now,
    );
}

} // verus!
