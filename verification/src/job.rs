//! The job row: lifecycle status, lock fields, retry accounting, and the
//! well-formedness invariant that every committed transition preserves.

use vstd::prelude::*;

verus! {

/// Lifecycle state of a job.
#[derive(Clone, Copy, Debug, PartialEq, Eq, Structural)]
pub enum JobStatus {
    Pending,
    Running,
    Done,
    Failed,
    Retry,
    Killed,
}

/// Mathematical model of a job row.
pub ghost struct JobModel {
    pub id: nat,
    pub payload: Seq<char>,
    pub job_type: Seq<char>,
    pub status: JobStatus,
    pub attempts: nat,
    pub max_attempts: nat,
    pub run_at: int,
    pub lock_by: Option<Seq<char>>,
    pub lock_at: Option<int>,
    pub done_at: Option<int>,
    pub last_error: Option<Seq<char>>,
}

/// A persisted job row. Timestamps are Unix epoch seconds.
#[derive(Debug)]
pub struct JobRow {
    /// Unique id, assigned by the store.
    pub id: u64,
    /// Opaque payload, the codec's output.
    pub payload: String,
    /// Discriminator selecting which worker class may consume the job.
    pub job_type: String,
    pub status: JobStatus,
    /// Count of prior retry re-entries; never exceeds `max_attempts`.
    pub attempts: u32,
    pub max_attempts: u32,
    /// Earliest epoch second at which the job becomes eligible.
    pub run_at: i64,
    /// Worker currently holding the job, if any.
    pub lock_by: Option<String>,
    /// Epoch second the current lock was acquired, if locked.
    pub lock_at: Option<i64>,
    /// Epoch second of the terminal transition (Done/Killed), if reached.
    pub done_at: Option<i64>,
    /// Diagnostic from the most recent failure, if any.
    pub last_error: Option<String>,
}

impl View for JobRow {
    type V = JobModel;

    open spec fn view(&self) -> JobModel {
        JobModel {
            id: self.id as nat,
            payload: self.payload@,
            job_type: self.job_type@,
            status: self.status,
            attempts: self.attempts as nat,
            max_attempts: self.max_attempts as nat,
            run_at: self.run_at as int,
            lock_by: match self.lock_by {
                Some(w) => Some(w@),
                None => None,
            },
            lock_at: match self.lock_at {
                Some(t) => Some(t as int),
                None => None,
            },
            done_at: match self.done_at {
                Some(t) => Some(t as int),
                None => None,
            },
            last_error: match self.last_error {
                Some(e) => Some(e@),
                None => None,
            },
        }
    }
}

impl JobModel {
    /// Row invariant, maintained by every committed transition:
    /// a Running row is locked, a Pending/Retry row is unlocked, a terminal
    /// row has its terminal timestamp, and retries never exceed the bound.
    pub open spec fn wf(self) -> bool {
        &&& self.status == JobStatus::Running ==> self.lock_by is Some && self.lock_at is Some
        &&& (self.status == JobStatus::Pending || self.status == JobStatus::Retry)
            ==> self.lock_by is None && self.lock_at is None
        &&& (self.status == JobStatus::Done || self.status == JobStatus::Killed)
            ==> self.done_at is Some
        &&& self.attempts <= self.max_attempts
    }

    /// A job is eligible for consumption by worker class `job_type` at time
    /// `now` iff it has come due and is either fresh or retryable.
    pub open spec fn eligible(self, job_type: Seq<char>, now: int) -> bool {
        &&& self.run_at <= now
        &&& self.job_type == job_type
        &&& (self.status == JobStatus::Pending
            || (self.status == JobStatus::Failed && self.attempts < self.max_attempts))
    }
}

impl JobRow {
    /// Field-by-field copy; the result denotes the same row.
    pub fn clone_row(&self) -> (r: JobRow)
        ensures
            r@ == self@,
    {
        JobRow {
            id: self.id,
            payload: self.payload.clone(),
            job_type: self.job_type.clone(),
            status: self.status,
            attempts: self.attempts,
            max_attempts: self.max_attempts,
            run_at: self.run_at,
            lock_by: match &self.lock_by {
                Some(w) => Some(w.clone()),
                None => None,
            },
            lock_at: self.lock_at,
            done_at: self.done_at,
            last_error: match &self.last_error {
                Some(e) => Some(e.clone()),
                None => None,
            },
        }
    }
}

} // verus!
