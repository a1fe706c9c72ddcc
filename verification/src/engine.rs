//! The task dispatcher: the engine that admits, deduplicates and
//! back-pressures submissions, hands admitted jobs to the execution pool,
//! and records every completion. The engine is a sequential state machine;
//! the caller serialises access to it (one lock around the whole engine)
//! and performs the actual payload processing between `submit` /
//! `job_finished` calls, so no engine operation ever waits on a
//! collaborator.

use vstd::prelude::*;
use crate::job::{Job, JobOutcome, JobOutcomeView, JobStatus, JobView};
use crate::pool::{Pool, PoolView};
use crate::registry::{
    all_wf, count_running, fresh_job, has_id, id_index, job_of, lemma_count_running_at_least_one,
    lemma_count_running_push, lemma_id_index_is, lemma_push_preserves_lookup,
    lemma_push_preserves_wf, lemma_update_preserves_lookup, unique_ids, Registry, TransitionError,
};

verus! {

/// Why a submission was turned away.
#[derive(Clone, Copy, Debug, PartialEq, Eq, Structural)]
pub enum RejectReason {
    /// The id or the payload descriptor was empty.
    InvalidInput,
    /// The id already reached a terminal status; the fixed policy is to
    /// refuse re-execution under a finished identity.
    Conflict,
    /// Every slot and every queue place is taken.
    Saturated,
}

/// The dispatcher's answer to one submission.
#[derive(Clone, Copy, Debug, PartialEq, Eq, Structural)]
pub enum SubmitOutcome {
    /// A new job was created. `started` tells the caller whether the job
    /// took a slot at once (it must now run the collaborator) or was parked
    /// in the overflow queue.
    Admitted { started: bool },
    /// The identity already has a live job; no new job, no new execution.
    AlreadyInFlight { status: JobStatus },
    /// Nothing was admitted and nothing changed.
    Rejected { reason: RejectReason },
}

/// A queued job that just took the slot freed by a finished one; the caller
/// must now run the collaborator for it.
#[derive(Debug)]
pub struct NextJob {
    pub id: String,
    pub payload_descriptor: String,
}

/// Mathematical image of a `NextJob`.
#[verifier::ext_equal]
pub ghost struct NextJobView {
    pub id: Seq<char>,
    pub payload_descriptor: Seq<char>,
}

impl View for NextJob {
    type V = NextJobView;

    open spec fn view(&self) -> NextJobView {
        NextJobView { id: self.id@, payload_descriptor: self.payload_descriptor@ }
    }
}

/// A liveness snapshot: how loaded the engine is right now.
#[derive(Clone, Copy, Debug, PartialEq, Eq, Structural)]
pub struct HealthReport {
    /// Jobs holding an execution slot.
    pub in_flight: usize,
    /// Jobs waiting in the overflow queue.
    pub queued: usize,
}

/// Mathematical image of an `Engine`.
#[verifier::ext_equal]
pub ghost struct EngineView {
    /// Every job ever registered, in registration order.
    pub jobs: Seq<JobView>,
    /// Number of concurrent execution slots.
    pub capacity: int,
    /// Bound on the overflow queue's depth.
    pub queue_bound: int,
    /// Slots currently occupied.
    pub in_flight: int,
    /// Identities waiting for a slot, first in first out.
    pub queue: Seq<Seq<char>>,
}

impl EngineView {
    /// The pool-side part of the state.
    pub open spec fn pool_view(self) -> PoolView {
        PoolView {
            capacity: self.capacity,
            queue_bound: self.queue_bound,
            in_flight: self.in_flight,
            queue: self.queue,
        }
    }

    /// Slots and queue entries together.
    pub open spec fn load(self) -> int {
        self.in_flight + self.queue.len()
    }

    /// The engine's invariant, maintained by every operation:
    /// - the pool counters are coherent and within their bounds;
    /// - job identities are unique and every record is coherent;
    /// - `in_flight` counts exactly the `Running` jobs, so at most one
    ///   execution is ever in flight per identity;
    /// - every queued identity belongs to a registered `Pending` job, and
    ///   no identity is queued twice.
    pub open spec fn inv(self) -> bool {
        &&& self.pool_view().wf()
        &&& unique_ids(self.jobs)
        &&& all_wf(self.jobs)
        &&& self.in_flight == count_running(self.jobs)
        &&& (forall|i: int|
            0 <= i < self.queue.len() ==> has_id(self.jobs, #[trigger] self.queue[i]) && job_of(
                self.jobs,
                self.queue[i],
            ).status == JobStatus::Pending)
        &&& (forall|i: int, j: int| 0 <= i < j < self.queue.len() ==> self.queue[i] != self.queue[j])
    }
}

/// What `submit` answers, as a function of the pre-state alone.
pub open spec fn submit_outcome(s: EngineView, id: Seq<char>, payload_descriptor: Seq<char>) -> SubmitOutcome {
    if id.len() == 0 || payload_descriptor.len() == 0 {
        SubmitOutcome::Rejected { reason: RejectReason::InvalidInput }
    } else if has_id(s.jobs, id) {
        if job_of(s.jobs, id).status.is_terminal() {
            SubmitOutcome::Rejected { reason: RejectReason::Conflict }
        } else {
            SubmitOutcome::AlreadyInFlight { status: job_of(s.jobs, id).status }
        }
    } else if s.in_flight < s.capacity {
        SubmitOutcome::Admitted { started: true }
    } else if s.queue.len() < s.queue_bound {
        SubmitOutcome::Admitted { started: false }
    } else {
        SubmitOutcome::Rejected { reason: RejectReason::Saturated }
    }
}

/// The engine state after `submit`, as a function of the pre-state alone.
/// A submission admitted straight to a slot registers a `Running` job; one
/// parked in the overflow queue registers a `Pending` job; everything else
/// leaves the state untouched.
pub open spec fn submit_post(s: EngineView, id: Seq<char>, payload_descriptor: Seq<char>, now: u64) -> EngineView {
    if id.len() == 0 || payload_descriptor.len() == 0 {
        s
    } else if has_id(s.jobs, id) {
        s
    } else if s.in_flight < s.capacity {
        EngineView {
            jobs: s.jobs.push(fresh_job(id, payload_descriptor, now).marked_running(now)),
            in_flight: s.in_flight + 1,
            ..s
        }
    } else if s.queue.len() < s.queue_bound {
        EngineView {
            jobs: s.jobs.push(fresh_job(id, payload_descriptor, now)),
            queue: s.queue.push(id),
            ..s
        }
    } else {
        s
    }
}

/// Whether a completion report for `id` is acceptable: the job must exist
/// and be the one execution currently in flight for its identity.
pub open spec fn finish_allowed(s: EngineView, id: Seq<char>) -> Result<(), TransitionError> {
    if !has_id(s.jobs, id) {
        Err(TransitionError::NotFound)
    } else if job_of(s.jobs, id).status != JobStatus::Running {
        Err(TransitionError::InvalidTransition)
    } else {
        Ok(())
    }
}

/// The terminal record a collaborator outcome turns a running job into.
pub open spec fn finished_job(j: JobView, outcome: JobOutcomeView, now: u64) -> JobView {
    match outcome {
        JobOutcomeView::Success { result } => j.marked_completed(result, now),
        JobOutcomeView::Failure { cause, detail } => j.marked_failed(cause, detail, now),
    }
}

/// The engine state after `job_finished`: the reported job becomes
/// terminal; its slot goes to the frontmost queued job (which becomes
/// `Running`) when one is waiting, and becomes free otherwise. A rejected
/// report changes nothing.
pub open spec fn finish_post(s: EngineView, id: Seq<char>, outcome: JobOutcomeView, now: u64) -> EngineView {
    if finish_allowed(s, id) is Err {
        s
    } else {
        let recorded = s.jobs.update(
            id_index(s.jobs, id),
            finished_job(job_of(s.jobs, id), outcome, now),
        );
        if s.queue.len() > 0 {
            let next = s.queue[0];
            EngineView {
                jobs: recorded.update(
                    id_index(recorded, next),
                    job_of(recorded, next).marked_running(now),
                ),
                queue: s.queue.drop_first(),
                ..s
            }
        } else {
            EngineView { jobs: recorded, in_flight: s.in_flight - 1, ..s }
        }
    }
}

/// Which queued job, if any, `job_finished` hands back to be started.
pub open spec fn finish_next(s: EngineView, id: Seq<char>) -> Option<NextJobView> {
    if finish_allowed(s, id) is Err {
        None
    } else if s.queue.len() > 0 {
        Some(
            NextJobView {
                id: s.queue[0],
                payload_descriptor: job_of(s.jobs, s.queue[0]).payload_descriptor,
            },
        )
    } else {
        None
    }
}

/// The dispatch and lifecycle engine: a job registry plus a bounded
/// execution pool, driven through atomic operations.
pub struct Engine {
    registry: Registry,
    pool: Pool,
}

impl View for Engine {
    type V = EngineView;

    closed spec fn view(&self) -> EngineView {
        EngineView {
            jobs: self.registry@,
            capacity: self.pool@.capacity,
            queue_bound: self.pool@.queue_bound,
            in_flight: self.pool@.in_flight,
            queue: self.pool@.queue,
        }
    }
}

impl Engine {
    /// The engine's invariant.
    pub open spec fn wf(self) -> bool {
        self@.inv()
    }

    /// An idle engine with `capacity` execution slots and an overflow queue
    /// of depth `queue_bound`.
    pub fn new(capacity: usize, queue_bound: usize) -> (r: Engine)
        requires
            capacity >= 1,
        ensures
            r.wf(),
            r@.jobs == Seq::<JobView>::empty(),
            r@.capacity == capacity,
            r@.queue_bound == queue_bound,
            r@.in_flight == 0,
            r@.queue == Seq::<Seq<char>>::empty(),
    {
        Engine { registry: Registry::new(), pool: Pool::new(capacity, queue_bound) }
    }

    /// One submission: validate, deduplicate, admit. Returns synchronously
    /// in every case; an admitted job's execution happens elsewhere, after
    /// this call has returned.
    pub fn submit(&mut self, id: String, payload_descriptor: String, now: u64) -> (r: SubmitOutcome)
        requires
            old(self).wf(),
        ensures
            final(self).wf(),
            r == submit_outcome(old(self)@, id@, payload_descriptor@),
            final(self)@ == submit_post(old(self)@, id@, payload_descriptor@, now),
    {
        let ghost s0 = self@;
        if id.as_str().is_empty() || payload_descriptor.as_str().is_empty() {
            proof {
                assert(self@ =~= submit_post(s0, id@, payload_descriptor@, now));
            }
            return SubmitOutcome::Rejected { reason: RejectReason::InvalidInput };
        }
        let existing_status = match self.registry.get(&id) {
            Some(job) => Some(job.status),
            None => None,
        };
        match existing_status {
            Some(status) => {
                proof {
                    assert(self@ =~= submit_post(s0, id@, payload_descriptor@, now));
                }
                if status.terminal() {
                    SubmitOutcome::Rejected { reason: RejectReason::Conflict }
                } else {
                    SubmitOutcome::AlreadyInFlight { status }
                }
            },
            None => {
                if self.pool.has_slot() {
                    self.admit_to_slot(&id, &payload_descriptor, now);
                    SubmitOutcome::Admitted { started: true }
                } else if self.pool.can_queue() {
                    self.admit_to_queue(id, &payload_descriptor, now);
                    SubmitOutcome::Admitted { started: false }
                } else {
                    proof {
                        assert(self@ =~= submit_post(s0, id@, payload_descriptor@, now));
                    }
                    SubmitOutcome::Rejected { reason: RejectReason::Saturated }
                }
            },
        }
    }

    /// Registers a fresh job and starts it in a free slot.
    fn admit_to_slot(&mut self, id: &String, payload_descriptor: &String, now: u64)
        requires
            old(self).wf(),
            id@.len() > 0,
            payload_descriptor@.len() > 0,
            !has_id(old(self)@.jobs, id@),
            old(self)@.in_flight < old(self)@.capacity,
        ensures
            final(self).wf(),
            final(self)@ == (EngineView {
                jobs: old(self)@.jobs.push(
                    fresh_job(id@, payload_descriptor@, now).marked_running(now),
                ),
                in_flight: old(self)@.in_flight + 1,
                ..old(self)@
            }),
    {
        let ghost s0 = self@;
        let ghost pending = fresh_job(id@, payload_descriptor@, now);
        let ghost started = pending.marked_running(now);
        let _ = self.registry.register_or_get(id, payload_descriptor, now);
        proof {
            lemma_push_preserves_wf(s0.jobs, pending);
            lemma_id_index_is(s0.jobs.push(pending), id@, s0.jobs.len() as int);
        }
        let _ = self.registry.mark_running(id, now);
        proof {
            assert(self.registry@ =~= s0.jobs.push(started));
        }
        self.pool.take_slot();
        proof {
            assert(self@ =~= (EngineView {
                jobs: s0.jobs.push(started),
                in_flight: s0.in_flight + 1,
                ..s0
            }));
            lemma_push_preserves_wf(s0.jobs, started);
            lemma_count_running_push(s0.jobs, started);
            assert(s0.queue.len() == 0);
        }
    }

    /// Registers a fresh job and parks its identity in the overflow queue.
    fn admit_to_queue(&mut self, id: String, payload_descriptor: &String, now: u64)
        requires
            old(self).wf(),
            id@.len() > 0,
            payload_descriptor@.len() > 0,
            !has_id(old(self)@.jobs, id@),
            old(self)@.in_flight >= old(self)@.capacity,
            old(self)@.queue.len() < old(self)@.queue_bound,
        ensures
            final(self).wf(),
            final(self)@ == (EngineView {
                jobs: old(self)@.jobs.push(fresh_job(id@, payload_descriptor@, now)),
                queue: old(self)@.queue.push(id@),
                ..old(self)@
            }),
    {
        let ghost s0 = self@;
        let ghost pending = fresh_job(id@, payload_descriptor@, now);
        let _ = self.registry.register_or_get(&id, payload_descriptor, now);
        proof {
            lemma_push_preserves_wf(s0.jobs, pending);
            lemma_count_running_push(s0.jobs, pending);
            lemma_id_index_is(s0.jobs.push(pending), id@, s0.jobs.len() as int);
        }
        self.pool.enqueue(id);
        proof {
            let s1 = self@;
            assert(s1 =~= (EngineView {
                jobs: s0.jobs.push(pending),
                queue: s0.queue.push(pending.id),
                ..s0
            }));
            assert forall|i: int|
                0 <= i < s1.queue.len() implies has_id(s1.jobs, #[trigger] s1.queue[i]) && job_of(
                s1.jobs,
                s1.queue[i],
            ).status == JobStatus::Pending by {
                if i < s0.queue.len() {
                    assert(s1.queue[i] == s0.queue[i]);
                    lemma_push_preserves_lookup(s0.jobs, pending, s0.queue[i]);
                } else {
                    assert(s1.queue[i] == pending.id);
                }
            }
            assert forall|i: int, j: int|
                0 <= i < j < s1.queue.len() implies s1.queue[i] != s1.queue[j] by {
                if j == s0.queue.len() {
                    assert(s1.queue[i] == s0.queue[i]);
                    assert(has_id(s0.jobs, s0.queue[i]));
                }
            }
        }
    }

    /// Records a collaborator outcome for a running job, frees its slot,
    /// and, when a job is waiting in the overflow queue, starts that job in
    /// the freed slot and returns it so the caller can run its payload.
    /// A report for an unknown identity or for a job not currently running
    /// is refused and changes nothing.
    pub fn job_finished(&mut self, id: &String, outcome: JobOutcome, now: u64) -> (r: Result<
        Option<NextJob>,
        TransitionError,
    >)
        requires
            old(self).wf(),
        ensures
            final(self).wf(),
            final(self)@ == finish_post(old(self)@, id@, outcome@, now),
            match r {
                Ok(next) => finish_allowed(old(self)@, id@) is Ok && (match next {
                    Some(nj) => finish_next(old(self)@, id@) == Some(nj@),
                    None => finish_next(old(self)@, id@) is None,
                }),
                Err(e) => finish_allowed(old(self)@, id@) == Err::<(), TransitionError>(e),
            },
    {
        let ghost s0 = self@;
        let ghost done = finished_job(job_of(s0.jobs, id@), outcome@, now);
        let ghost idx = id_index(s0.jobs, id@);
        let recorded = match outcome {
            JobOutcome::Success { result } => self.registry.mark_completed(id, result, now),
            JobOutcome::Failure { cause, detail } => self.registry.mark_failed(
                id,
                cause,
                detail,
                now,
            ),
        };
        match recorded {
            Err(e) => {
                proof {
                    assert(self@ =~= finish_post(s0, id@, outcome@, now));
                }
                Err(e)
            },
            Ok(()) => {
                proof {
                    lemma_count_running_at_least_one(s0.jobs, idx);
                }
                let ghost recorded_jobs = s0.jobs.update(idx, done);
                match self.pool.release() {
                    None => {
                        proof {
                            self.lemma_finish_no_queue(s0, id@, outcome@, now);
                        }
                        Ok(None)
                    },
                    Some(next_id) => {
                        proof {
                            assert(s0.queue[0] == next_id@);
                            assert(has_id(s0.jobs, next_id@) && job_of(s0.jobs, next_id@).status
                                == JobStatus::Pending);
                            lemma_update_preserves_lookup(s0.jobs, idx, done, next_id@);
                        }
                        let _ = self.registry.mark_running(&next_id, now);
                        let payload_descriptor = match self.registry.get(&next_id) {
                            Some(job) => job.payload_descriptor.clone(),
                            None => {
                                proof {
                                    lemma_update_preserves_lookup(
                                        recorded_jobs,
                                        id_index(recorded_jobs, next_id@),
                                        job_of(recorded_jobs, next_id@).marked_running(now),
                                        next_id@,
                                    );
                                    assert(false);
                                }
                                String::new()
                            },
                        };
                        proof {
                            self.lemma_finish_with_queue(s0, id@, outcome@, now);
                        }
                        Ok(Some(NextJob { id: next_id, payload_descriptor }))
                    },
                }
            },
        }
    }

    /// Closes the no-queue case of `job_finished`: the final state matches
    /// `finish_post` and the invariant holds again.
    proof fn lemma_finish_no_queue(&self, s0: EngineView, id: Seq<char>, outcome: JobOutcomeView, now: u64)
        requires
            s0.inv(),
            finish_allowed(s0, id) is Ok,
            s0.queue.len() == 0,
            self@ == (EngineView {
                jobs: s0.jobs.update(
                    id_index(s0.jobs, id),
                    finished_job(job_of(s0.jobs, id), outcome, now),
                ),
                in_flight: s0.in_flight - 1,
                ..s0
            }),
        ensures
            self@.inv(),
            self@ == finish_post(s0, id, outcome, now),
    {
        assert(self@ =~= finish_post(s0, id, outcome, now));
        crate::laws::law_finish_preserves_inv(s0, id, outcome, now);
    }

    /// Closes the queued case of `job_finished`: the final state matches
    /// `finish_post` and the invariant holds again.
    proof fn lemma_finish_with_queue(&self, s0: EngineView, id: Seq<char>, outcome: JobOutcomeView, now: u64)
        requires
            s0.inv(),
            finish_allowed(s0, id) is Ok,
            s0.queue.len() > 0,
            self@ == (EngineView {
                jobs: s0.jobs.update(
                    id_index(s0.jobs, id),
                    finished_job(job_of(s0.jobs, id), outcome, now),
                ).update(
                    id_index(
                        s0.jobs.update(
                            id_index(s0.jobs, id),
                            finished_job(job_of(s0.jobs, id), outcome, now),
                        ),
                        s0.queue[0],
                    ),
                    job_of(
                        s0.jobs.update(
                            id_index(s0.jobs, id),
                            finished_job(job_of(s0.jobs, id), outcome, now),
                        ),
                        s0.queue[0],
                    ).marked_running(now),
                ),
                queue: s0.queue.drop_first(),
                ..s0
            }),
        ensures
            self@.inv(),
            self@ == finish_post(s0, id, outcome, now),
    {
        assert(self@ =~= finish_post(s0, id, outcome, now));
        crate::laws::law_finish_preserves_inv(s0, id, outcome, now);
    }

    /// Looks a job up without mutating anything.
    pub fn get(&self, id: &String) -> (r: Option<&Job>)
        requires
            self.wf(),
        ensures
            match r {
                Some(job) => has_id(self@.jobs, id@) && job@ == job_of(self@.jobs, id@),
                None => !has_id(self@.jobs, id@),
            },
    {
        self.registry.get(id)
    }

    /// The liveness snapshot: always answers, touches nothing but the two
    /// load counters, and in particular never waits on any job.
    pub fn health(&self) -> (r: HealthReport)
        ensures
            r.in_flight == self@.in_flight,
            r.queued == self@.queue.len(),
    {
        HealthReport { in_flight: self.pool.in_flight(), queued: self.pool.queued() }
    }
}

} // verus!
