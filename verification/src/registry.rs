//! The job registry: the single source of truth for job lifecycle and
//! deduplication. It owns every job record; all mutation passes through
//! its transition operations, each of which validates the lifecycle rule
//! `Pending -> Running -> {Completed | Failed}`.

use vstd::prelude::*;
use crate::job::{FailureCause, Job, JobStatus, JobView};

verus! {

/// Some job in `jobs` carries the identity `id`.
pub open spec fn has_id(jobs: Seq<JobView>, id: Seq<char>) -> bool {
    exists|i: int| 0 <= i < jobs.len() && jobs[i].id == id
}

/// The index of the job carrying `id` (meaningful when `has_id` holds and
/// ids are unique).
pub open spec fn id_index(jobs: Seq<JobView>, id: Seq<char>) -> int {
    choose|i: int| 0 <= i < jobs.len() && jobs[i].id == id
}

/// The job carrying `id`.
pub open spec fn job_of(jobs: Seq<JobView>, id: Seq<char>) -> JobView {
    jobs[id_index(jobs, id)]
}

/// No two jobs share an identity.
pub open spec fn unique_ids(jobs: Seq<JobView>) -> bool {
    forall|i: int, j: int| 0 <= i < j < jobs.len() ==> jobs[i].id != jobs[j].id
}

/// Every job record is internally coherent.
pub open spec fn all_wf(jobs: Seq<JobView>) -> bool {
    forall|i: int| 0 <= i < jobs.len() ==> (#[trigger] jobs[i]).wf()
}

/// How many jobs are currently `Running`.
pub open spec fn count_running(jobs: Seq<JobView>) -> int
    decreases jobs.len(),
{
    if jobs.len() == 0 {
        0
    } else {
        count_running(jobs.drop_last()) + if jobs.last().status == JobStatus::Running {
            1int
        } else {
            0int
        }
    }
}

/// The record a fresh admission creates.
pub open spec fn fresh_job(id: Seq<char>, payload_descriptor: Seq<char>, now: u64) -> JobView {
    JobView {
        id: id,
        payload_descriptor: payload_descriptor,
        status: JobStatus::Pending,
        submitted_at: now,
        started_at: None,
        finished_at: None,
        result: None,
        cause: None,
    }
}

/// With unique ids, an index holding `id` is the index `id_index` picks.
pub proof fn lemma_id_index_is(jobs: Seq<JobView>, id: Seq<char>, i: int)
    requires
        unique_ids(jobs),
        0 <= i < jobs.len(),
        jobs[i].id == id,
    ensures
        has_id(jobs, id),
        id_index(jobs, id) == i,
        job_of(jobs, id) == jobs[i],
{
    assert(has_id(jobs, id));
    let j = id_index(jobs, id);
    assert(0 <= j < jobs.len() && jobs[j].id == id);
}

/// Appending a job with a new identity keeps the registry well formed.
pub proof fn lemma_push_preserves_wf(jobs: Seq<JobView>, j: JobView)
    requires
        unique_ids(jobs),
        all_wf(jobs),
        j.wf(),
        !has_id(jobs, j.id),
    ensures
        unique_ids(jobs.push(j)),
        all_wf(jobs.push(j)),
{
    let pushed = jobs.push(j);
    assert forall|a: int, b: int| 0 <= a < b < pushed.len() implies pushed[a].id != pushed[b].id by {
        if b < jobs.len() {
            assert(pushed[a] == jobs[a] && pushed[b] == jobs[b]);
        } else {
            assert(pushed[b] == j);
            assert(pushed[a] == jobs[a]);
        }
    }
    assert forall|k: int| 0 <= k < pushed.len() implies (#[trigger] pushed[k]).wf() by {
        if k < jobs.len() {
            assert(pushed[k] == jobs[k]);
            assert(jobs[k].wf());
        } else {
            assert(pushed[k] == j);
        }
    }
}

/// Replacing a job by a coherent record with the same identity keeps the
/// registry well formed.
pub proof fn lemma_update_preserves_wf(jobs: Seq<JobView>, i: int, j: JobView)
    requires
        unique_ids(jobs),
        all_wf(jobs),
        0 <= i < jobs.len(),
        j.wf(),
        j.id == jobs[i].id,
    ensures
        unique_ids(jobs.update(i, j)),
        all_wf(jobs.update(i, j)),
{
    let updated = jobs.update(i, j);
    assert forall|a: int, b: int| 0 <= a < b < updated.len() implies updated[a].id != updated[b].id by {
        assert(updated[a].id == jobs[a].id && updated[b].id == jobs[b].id);
    }
    assert forall|k: int| 0 <= k < updated.len() implies (#[trigger] updated[k]).wf() by {
        if k != i {
            assert(updated[k] == jobs[k]);
            assert(jobs[k].wf());
        }
    }
}

/// Appending a job with a fresh identity leaves every existing lookup
/// unchanged.
pub proof fn lemma_push_preserves_lookup(jobs: Seq<JobView>, j: JobView, id: Seq<char>)
    requires
        unique_ids(jobs),
        !has_id(jobs, j.id),
        has_id(jobs, id),
    ensures
        has_id(jobs.push(j), id),
        id_index(jobs.push(j), id) == id_index(jobs, id),
        job_of(jobs.push(j), id) == job_of(jobs, id),
{
    let i = id_index(jobs, id);
    assert(0 <= i < jobs.len() && jobs[i].id == id);
    assert forall|a: int, b: int|
        0 <= a < b < jobs.push(j).len() implies jobs.push(j)[a].id != jobs.push(j)[b].id by {
        if b < jobs.len() {
            assert(jobs.push(j)[a] == jobs[a] && jobs.push(j)[b] == jobs[b]);
        } else {
            assert(jobs.push(j)[b] == j);
            assert(jobs.push(j)[a] == jobs[a]);
        }
    }
    lemma_id_index_is(jobs.push(j), id, i);
}

/// Replacing the job at `i` (identity kept) leaves the lookup of every other
/// identity unchanged, and moves the lookup of its own identity to the new
/// record.
pub proof fn lemma_update_preserves_lookup(jobs: Seq<JobView>, i: int, j: JobView, id: Seq<char>)
    requires
        unique_ids(jobs),
        0 <= i < jobs.len(),
        j.id == jobs[i].id,
        has_id(jobs, id),
    ensures
        has_id(jobs.update(i, j), id),
        id_index(jobs.update(i, j), id) == id_index(jobs, id),
        job_of(jobs.update(i, j), id) == if id == jobs[i].id {
            j
        } else {
            job_of(jobs, id)
        },
{
    let k = id_index(jobs, id);
    assert(0 <= k < jobs.len() && jobs[k].id == id);
    let updated = jobs.update(i, j);
    assert forall|a: int, b: int| 0 <= a < b < updated.len() implies updated[a].id != updated[b].id by {
        assert(updated[a].id == jobs[a].id && updated[b].id == jobs[b].id);
    }
    assert(updated[k].id == id);
    lemma_id_index_is(updated, id, k);
    if id == jobs[i].id {
        if k != i {
            assert(jobs[k].id == jobs[i].id);
            assert(false);
        }
    }
}

/// Appending a job changes the running count exactly by the new job's
/// contribution.
pub proof fn lemma_count_running_push(jobs: Seq<JobView>, j: JobView)
    ensures
        count_running(jobs.push(j)) == count_running(jobs) + if j.status == JobStatus::Running {
            1int
        } else {
            0int
        },
{
    assert(jobs.push(j).drop_last() =~= jobs);
    assert(jobs.push(j).last() == j);
}

/// Replacing the job at `i` changes the running count exactly by the
/// difference of the two records' contributions.
pub proof fn lemma_count_running_update(jobs: Seq<JobView>, i: int, j: JobView)
    requires
        0 <= i < jobs.len(),
    ensures
        count_running(jobs.update(i, j)) == count_running(jobs) - (
        if jobs[i].status == JobStatus::Running {
            1int
        } else {
            0int
        }) + (
        if j.status == JobStatus::Running {
            1int
        } else {
            0int
        }),
    decreases jobs.len(),
{
    let updated = jobs.update(i, j);
    if i == jobs.len() - 1 {
        assert(updated.drop_last() =~= jobs.drop_last());
        assert(updated.last() == j);
    } else {
        lemma_count_running_update(jobs.drop_last(), i, j);
        assert(updated.drop_last() =~= jobs.drop_last().update(i, j));
        assert(updated.last() == jobs.last());
    }
}

/// A `Running` job witnesses that the running count is positive.
pub proof fn lemma_count_running_at_least_one(jobs: Seq<JobView>, i: int)
    requires
        0 <= i < jobs.len(),
        jobs[i].status == JobStatus::Running,
    ensures
        count_running(jobs) >= 1,
    decreases jobs.len(),
{
    lemma_count_running_nonneg(jobs.drop_last());
    if i < jobs.len() - 1 {
        lemma_count_running_at_least_one(jobs.drop_last(), i);
        lemma_count_running_nonneg(jobs.drop_last().drop_last());
    }
}

/// The running count is never negative.
pub proof fn lemma_count_running_nonneg(jobs: Seq<JobView>)
    ensures
        count_running(jobs) >= 0,
    decreases jobs.len(),
{
    if jobs.len() > 0 {
        lemma_count_running_nonneg(jobs.drop_last());
    }
}

/// Whether `register_or_get` created a job, found a live one, or refused a
/// terminal identity.
#[derive(Clone, Copy, Debug, PartialEq, Eq, Structural)]
pub enum RegisterOutcome {
    /// The identity was unknown: a fresh `Pending` job was created.
    Created,
    /// The identity exists and is non-terminal: no new job, no new execution.
    Existing { status: JobStatus },
    /// The identity exists and is terminal: resubmission is rejected, the
    /// registry's fixed policy being that a finished identity stays finished.
    TerminalConflict { status: JobStatus },
}

/// Why a lifecycle transition was refused.
#[derive(Clone, Copy, Debug, PartialEq, Eq, Structural)]
pub enum TransitionError {
    /// The identity is not registered.
    NotFound,
    /// The job's current status does not permit the transition.
    InvalidTransition,
}

/// Concurrent-safe store (behind the caller's single lock) mapping job
/// identity to job state.
pub struct Registry {
    jobs: Vec<Job>,
}

impl View for Registry {
    type V = Seq<JobView>;

    closed spec fn view(&self) -> Seq<JobView> {
        self.jobs@.map_values(|j: Job| j@)
    }
}

impl Registry {
    /// Well-formedness: unique identities, coherent records.
    pub open spec fn wf(self) -> bool {
        unique_ids(self@) && all_wf(self@)
    }

    /// An empty registry.
    pub fn new() -> (r: Registry)
        ensures
            r.wf(),
            r@ == Seq::<JobView>::empty(),
    {
        let r = Registry { jobs: Vec::new() };
        proof {
            assert(r@ =~= Seq::<JobView>::empty());
        }
        r
    }

    /// The index of the job with identity `id`, if one is registered.
    fn find_index(&self, id: &String) -> (r: Option<usize>)
        ensures
            match r {
                Some(i) => 0 <= i < self@.len() && self@[i as int].id == id@,
                None => !has_id(self@, id@),
            },
    {
        let mut k: usize = 0;
        while k < self.jobs.len()
            invariant
                k <= self.jobs.len(),
                forall|j: int| 0 <= j < k ==> self@[j].id != id@,
            decreases self.jobs.len() - k,
        {
            if self.jobs[k].id == *id {
                return Some(k);
            }
            k += 1;
        }
        None
    }

    /// Looks an identity up without mutating anything.
    pub fn get(&self, id: &String) -> (r: Option<&Job>)
        requires
            self.wf(),
        ensures
            match r {
                Some(job) => has_id(self@, id@) && job@ == job_of(self@, id@),
                None => !has_id(self@, id@),
            },
    {
        match self.find_index(id) {
            Some(i) => {
                proof {
                    lemma_id_index_is(self@, id@, i as int);
                }
                Some(&self.jobs[i])
            },
            None => None,
        }
    }

    /// The atomic admission step: creates a fresh `Pending` job when the
    /// identity is unknown, returns the live job's status when it is known
    /// and non-terminal, and refuses a terminal identity.
    pub fn register_or_get(&mut self, id: &String, payload_descriptor: &String, now: u64) -> (r:
        RegisterOutcome)
        requires
            old(self).wf(),
            id@.len() > 0,
            payload_descriptor@.len() > 0,
        ensures
            final(self).wf(),
            !has_id(old(self)@, id@) ==> r == RegisterOutcome::Created && final(self)@ == old(
                self,
            )@.push(fresh_job(id@, payload_descriptor@, now)),
            has_id(old(self)@, id@) && !job_of(old(self)@, id@).status.is_terminal() ==> r == (
            RegisterOutcome::Existing { status: job_of(old(self)@, id@).status }) && final(self)@
                == old(self)@,
            has_id(old(self)@, id@) && job_of(old(self)@, id@).status.is_terminal() ==> r == (
            RegisterOutcome::TerminalConflict { status: job_of(old(self)@, id@).status }) && final(self)@ == old(self)@,
    {
        match self.find_index(id) {
            Some(i) => {
                proof {
                    lemma_id_index_is(self@, id@, i as int);
                }
                let status = self.jobs[i].status;
                if status.terminal() {
                    RegisterOutcome::TerminalConflict { status }
                } else {
                    RegisterOutcome::Existing { status }
                }
            },
            None => {
                let job = Job {
                    id: id.clone(),
                    payload_descriptor: payload_descriptor.clone(),
                    status: JobStatus::Pending,
                    submitted_at: now,
                    started_at: None,
                    finished_at: None,
                    result: None,
                    cause: None,
                };
                proof {
                    lemma_push_preserves_wf(self@, fresh_job(id@, payload_descriptor@, now));
                }
                self.jobs.push(job);
                proof {
                    assert(self@ =~= old(self)@.push(fresh_job(id@, payload_descriptor@, now)));
                }
                RegisterOutcome::Created
            },
        }
    }

    /// The `Pending -> Running` transition; refused for unknown identities
    /// and for any other current status.
    pub fn mark_running(&mut self, id: &String, now: u64) -> (r: Result<(), TransitionError>)
        requires
            old(self).wf(),
        ensures
            final(self).wf(),
            !has_id(old(self)@, id@) ==> r == Err::<(), TransitionError>(TransitionError::NotFound)
                && final(self)@ == old(self)@,
            has_id(old(self)@, id@) && job_of(old(self)@, id@).status != JobStatus::Pending ==> r
                == Err::<(), TransitionError>(TransitionError::InvalidTransition) && final(self)@
                == old(self)@,
            has_id(old(self)@, id@) && job_of(old(self)@, id@).status == JobStatus::Pending ==> r
                == Ok::<(), TransitionError>(()) && final(self)@ == old(self)@.update(
                id_index(old(self)@, id@),
                job_of(old(self)@, id@).marked_running(now),
            ),
    {
        match self.find_index(id) {
            None => Err(TransitionError::NotFound),
            Some(i) => {
                proof {
                    lemma_id_index_is(self@, id@, i as int);
                }
                let status = self.jobs[i].status;
                if status == JobStatus::Pending {
                    let ghost pre = self@;
                    let job = &mut self.jobs[i];
                    job.status = JobStatus::Running;
                    job.started_at = Some(now);
                    proof {
                        let updated = job_of(pre, id@).marked_running(now);
                        assert(self@ =~= pre.update(i as int, updated));
                        lemma_update_preserves_wf(pre, i as int, updated);
                    }
                    Ok(())
                } else {
                    Err(TransitionError::InvalidTransition)
                }
            },
        }
    }

    /// The `Running -> Completed` transition, recording the collaborator's
    /// outcome summary; refused for unknown identities and for any other
    /// current status.
    pub fn mark_completed(&mut self, id: &String, result: String, now: u64) -> (r: Result<
        (),
        TransitionError,
    >)
        requires
            old(self).wf(),
        ensures
            final(self).wf(),
            !has_id(old(self)@, id@) ==> r == Err::<(), TransitionError>(TransitionError::NotFound)
                && final(self)@ == old(self)@,
            has_id(old(self)@, id@) && job_of(old(self)@, id@).status != JobStatus::Running ==> r
                == Err::<(), TransitionError>(TransitionError::InvalidTransition) && final(self)@
                == old(self)@,
            has_id(old(self)@, id@) && job_of(old(self)@, id@).status == JobStatus::Running ==> r
                == Ok::<(), TransitionError>(()) && final(self)@ == old(self)@.update(
                id_index(old(self)@, id@),
                job_of(old(self)@, id@).marked_completed(result@, now),
            ),
    {
        match self.find_index(id) {
            None => Err(TransitionError::NotFound),
            Some(i) => {
                proof {
                    lemma_id_index_is(self@, id@, i as int);
                }
                let status = self.jobs[i].status;
                if status == JobStatus::Running {
                    let ghost pre = self@;
                    let job = &mut self.jobs[i];
                    job.status = JobStatus::Completed;
                    job.finished_at = Some(now);
                    job.result = Some(result);
                    proof {
                        let updated = job_of(pre, id@).marked_completed(result@, now);
                        assert(self@ =~= pre.update(i as int, updated));
                        lemma_update_preserves_wf(pre, i as int, updated);
                    }
                    Ok(())
                } else {
                    Err(TransitionError::InvalidTransition)
                }
            },
        }
    }

    /// The `Running -> Failed` transition, recording the failure's cause and
    /// detail; refused for unknown identities and for any other current
    /// status.
    pub fn mark_failed(&mut self, id: &String, cause: FailureCause, detail: String, now: u64) -> (r:
        Result<(), TransitionError>)
        requires
            old(self).wf(),
        ensures
            final(self).wf(),
            !has_id(old(self)@, id@) ==> r == Err::<(), TransitionError>(TransitionError::NotFound)
                && final(self)@ == old(self)@,
            has_id(old(self)@, id@) && job_of(old(self)@, id@).status != JobStatus::Running ==> r
                == Err::<(), TransitionError>(TransitionError::InvalidTransition) && final(self)@
                == old(self)@,
            has_id(old(self)@, id@) && job_of(old(self)@, id@).status == JobStatus::Running ==> r
                == Ok::<(), TransitionError>(()) && final(self)@ == old(self)@.update(
                id_index(old(self)@, id@),
                job_of(old(self)@, id@).marked_failed(cause, detail@, now),
            ),
    {
        match self.find_index(id) {
            None => Err(TransitionError::NotFound),
            Some(i) => {
                proof {
                    lemma_id_index_is(self@, id@, i as int);
                }
                let status = self.jobs[i].status;
                if status == JobStatus::Running {
                    let ghost pre = self@;
                    let job = &mut self.jobs[i];
                    job.status = JobStatus::Failed;
                    job.finished_at = Some(now);
                    job.result = Some(detail);
                    job.cause = Some(cause);
                    proof {
                        let updated = job_of(pre, id@).marked_failed(cause, detail@, now);
                        assert(self@ =~= pre.update(i as int, updated));
                        lemma_update_preserves_wf(pre, i as int, updated);
                    }
                    Ok(())
                } else {
                    Err(TransitionError::InvalidTransition)
                }
            },
        }
    }
}

} // verus!
