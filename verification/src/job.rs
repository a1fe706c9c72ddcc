//! The job record: one schedulable unit of work, identified by a
//! caller-supplied id, together with its lifecycle status.

use vstd::prelude::*;

verus! {

/// Lifecycle status of a job. It only ever advances
/// `Pending -> Running -> {Completed | Failed}`.
#[derive(Clone, Copy, Debug, PartialEq, Eq, Structural)]
pub enum JobStatus {
    Pending,
    Running,
    Completed,
    Failed,
}

impl JobStatus {
    /// `Completed` and `Failed` are terminal: no further transition is valid.
    pub open spec fn is_terminal(self) -> bool {
        self == JobStatus::Completed || self == JobStatus::Failed
    }

    /// Executable test for a terminal status.
    pub fn terminal(&self) -> (r: bool)
        ensures
            r == self.is_terminal(),
    {
        match self {
            JobStatus::Completed => true,
            JobStatus::Failed => true,
            _ => false,
        }
    }
}

/// Why a job ended in `Failed`.
#[derive(Clone, Copy, Debug, PartialEq, Eq, Structural)]
pub enum FailureCause {
    /// The payload processor itself reported a failure.
    Collaborator,
    /// The payload processor exceeded its time bound.
    Timeout,
}

/// What the caller of the payload processor observed: either a successful
/// outcome summary, or a failure with its cause and detail.
#[derive(Debug)]
pub enum JobOutcome {
    Success { result: String },
    Failure { cause: FailureCause, detail: String },
}

/// Mathematical image of a `JobOutcome`.
#[verifier::ext_equal]
pub ghost enum JobOutcomeView {
    Success { result: Seq<char> },
    Failure { cause: FailureCause, detail: Seq<char> },
}

impl View for JobOutcome {
    type V = JobOutcomeView;

    open spec fn view(&self) -> JobOutcomeView {
        match self {
            JobOutcome::Success { result } => JobOutcomeView::Success { result: result@ },
            JobOutcome::Failure { cause, detail } => JobOutcomeView::Failure {
                cause: *cause,
                detail: detail@,
            },
        }
    }
}

/// One unit of work. The registry owns every `Job`; other components see
/// only snapshots or borrowed views.
#[derive(Debug)]
pub struct Job {
    /// Caller-supplied identity; the deduplication key.
    pub id: String,
    /// Opaque reference to the work (for instance a file name); never
    /// interpreted by the core.
    pub payload_descriptor: String,
    /// Current lifecycle status.
    pub status: JobStatus,
    /// When the job was first admitted.
    pub submitted_at: u64,
    /// When execution began; set exactly once, on `Pending -> Running`.
    pub started_at: Option<u64>,
    /// When execution ended; set exactly once, on reaching a terminal status.
    pub finished_at: Option<u64>,
    /// Outcome or error summary; present exactly when the status is terminal.
    pub result: Option<String>,
    /// Failure cause; present exactly when the status is `Failed`.
    pub cause: Option<FailureCause>,
}

/// Mathematical image of a `Job`.
#[verifier::ext_equal]
pub ghost struct JobView {
    pub id: Seq<char>,
    pub payload_descriptor: Seq<char>,
    pub status: JobStatus,
    pub submitted_at: u64,
    pub started_at: Option<u64>,
    pub finished_at: Option<u64>,
    pub result: Option<Seq<char>>,
    pub cause: Option<FailureCause>,
}

impl View for Job {
    type V = JobView;

    open spec fn view(&self) -> JobView {
        JobView {
            id: self.id@,
            payload_descriptor: self.payload_descriptor@,
            status: self.status,
            submitted_at: self.submitted_at,
            started_at: self.started_at,
            finished_at: self.finished_at,
            result: match self.result {
                Some(s) => Some(s@),
                None => None,
            },
            cause: self.cause,
        }
    }
}

impl JobView {
    /// Internal coherence of one job record: timestamps and outcome fields
    /// are present exactly where the lifecycle says they must be, and the
    /// identifying fields are non-empty.
    pub open spec fn wf(self) -> bool {
        &&& self.id.len() > 0
        &&& self.payload_descriptor.len() > 0
        &&& (self.status == JobStatus::Pending ==> {
            &&& self.started_at is None
            &&& self.finished_at is None
            &&& self.result is None
        })
        &&& (self.status == JobStatus::Running ==> {
            &&& self.started_at is Some
            &&& self.finished_at is None
            &&& self.result is None
        })
        &&& (self.status.is_terminal() ==> {
            &&& self.started_at is Some
            &&& self.finished_at is Some
            &&& self.result is Some
        })
        &&& (self.cause is Some <==> self.status == JobStatus::Failed)
    }

    /// The same job after its `Pending -> Running` transition.
    pub open spec fn marked_running(self, now: u64) -> JobView {
        JobView { status: JobStatus::Running, started_at: Some(now), ..self }
    }

    /// The same job after its `Running -> Completed` transition.
    pub open spec fn marked_completed(self, result: Seq<char>, now: u64) -> JobView {
        JobView {
            status: JobStatus::Completed,
            finished_at: Some(now),
            result: Some(result),
            ..self
        }
    }

    /// The same job after its `Running -> Failed` transition.
    pub open spec fn marked_failed(self, cause: FailureCause, detail: Seq<char>, now: u64) -> JobView {
        JobView {
            status: JobStatus::Failed,
            finished_at: Some(now),
            result: Some(detail),
            cause: Some(cause),
            ..self
        }
    }
}

} // verus!
