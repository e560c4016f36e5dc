//! The job store: durable state of jobs and workers, modelled as two
//! sequences of rows, and the atomic state transitions over them.
//!
//! The surrounding runtime persists these rows in a relational backend;
//! every mutation it may commit is one of the operations below, so the
//! contracts here are the contracts of the whole store. The clock is an
//! input: each time-dependent operation takes `now` in epoch seconds.

use vstd::prelude::*;
use vstd::string::StringExecFns;

use crate::error::StorageError;
use crate::job::{JobModel, JobRow, JobStatus};
use crate::worker::{WorkerModel, WorkerRow};

verus! {

/// Default retry bound for newly inserted jobs.
pub const DEFAULT_MAX_ATTEMPTS: u32 = 25;

/// Mathematical model of the whole store.
pub ghost struct StoreModel {
    pub jobs: Seq<JobModel>,
    pub workers: Seq<WorkerModel>,
    pub next_id: nat,
}

impl StoreModel {
    /// Store invariant: every row is well formed, job ids are unique and
    /// below the id counter, and worker ids are unique.
    pub open spec fn wf(self) -> bool {
        &&& forall|i: int| 0 <= i < self.jobs.len() ==> (#[trigger] self.jobs[i]).wf()
        &&& forall|i: int, j: int|
            0 <= i < self.jobs.len() && 0 <= j < self.jobs.len() && i != j
                ==> (#[trigger] self.jobs[i]).id != (#[trigger] self.jobs[j]).id
        &&& forall|i: int| 0 <= i < self.jobs.len() ==> (#[trigger] self.jobs[i]).id < self.next_id
        &&& forall|i: int, j: int|
            0 <= i < self.workers.len() && 0 <= j < self.workers.len() && i != j
                ==> (#[trigger] self.workers[i]).id != (#[trigger] self.workers[j]).id
    }
}

/// Number of rows in `jobs` whose status is `st`.
pub open spec fn count_with_status(jobs: Seq<JobModel>, st: JobStatus) -> nat
    decreases jobs.len(),
{
    if jobs.len() == 0 {
        0
    } else {
        count_with_status(jobs.drop_last(), st) + if jobs.last().status == st {
            1nat
        } else {
            0nat
        }
    }
}

/// A freshly inserted row: Pending, unlocked, no attempts yet.
pub open spec fn fresh_job(
    id: nat,
    payload: Seq<char>,
    job_type: Seq<char>,
    run_at: int,
) -> JobModel {
    JobModel {
        id,
        payload,
        job_type,
        status: JobStatus::Pending,
        attempts: 0,
        max_attempts: DEFAULT_MAX_ATTEMPTS as nat,
        run_at,
        lock_by: None,
        lock_at: None,
        done_at: None,
        last_error: None,
    }
}

/// `ack`: under the `lock_by` guard the row becomes Done, stamped now.
pub open spec fn ack_transition(
    j: JobModel,
    worker_id: Seq<char>,
    job_id: nat,
    now: int,
) -> JobModel {
    if j.id == job_id && j.lock_by == Some(worker_id) {
        JobModel { status: JobStatus::Done, done_at: Some(now), ..j }
    } else {
        j
    }
}

/// `kill`: under the `lock_by` guard the row becomes Killed, stamped now.
pub open spec fn kill_transition(
    j: JobModel,
    worker_id: Seq<char>,
    job_id: nat,
    now: int,
) -> JobModel {
    if j.id == job_id && j.lock_by == Some(worker_id) {
        JobModel { status: JobStatus::Killed, done_at: Some(now), ..j }
    } else {
        j
    }
}

/// `retry`: under the `lock_by` guard the row goes straight back to
/// Pending with the lock cleared; `attempts` is unchanged.
pub open spec fn retry_transition(j: JobModel, worker_id: Seq<char>, job_id: nat) -> JobModel {
    if j.id == job_id && j.lock_by == Some(worker_id) {
        JobModel {
            status: JobStatus::Pending,
            lock_by: None,
            lock_at: None,
            done_at: None,
            ..j
        }
    } else {
        j
    }
}

/// `reschedule`: the row becomes Failed with the lock cleared and a new
/// `run_at`; `attempts` is unchanged (retry accounting happens when the
/// row re-enters Pending).
pub open spec fn reschedule_transition(j: JobModel, job_id: nat, run_at: int) -> JobModel {
    if j.id == job_id {
        JobModel {
            status: JobStatus::Failed,
            lock_by: None,
            lock_at: None,
            done_at: None,
            run_at,
            ..j
        }
    } else {
        j
    }
}

/// `update`: the row carrying the given id takes the mutable fields of
/// the supplied value — status, attempts, lock fields, terminal timestamp
/// and diagnostic; identity, payload, type, eligibility time and the retry
/// bound are not written.
pub open spec fn update_transition(j: JobModel, new: JobModel) -> JobModel {
    if j.id == new.id {
        JobModel {
            status: new.status,
            attempts: new.attempts,
            done_at: new.done_at,
            lock_by: new.lock_by,
            lock_at: new.lock_at,
            last_error: new.last_error,
            ..j
        }
    } else {
        j
    }
}

/// The atomic claim: one compound statement that moves a Pending, unlocked
/// row of the right type to Running, locked by the claiming worker. Any
/// other row is untouched.
pub open spec fn claim_transition(
    j: JobModel,
    worker_id: Seq<char>,
    job_id: nat,
    job_type: Seq<char>,
    now: int,
) -> JobModel {
    if j.id == job_id && j.job_type == job_type && j.status == JobStatus::Pending && j.lock_by
        is None {
        JobModel {
            status: JobStatus::Running,
            lock_by: Some(worker_id),
            lock_at: Some(now),
            ..j
        }
    } else {
        j
    }
}

/// Diagnostic written to a reaped row.
pub open spec fn abandoned_message() -> Seq<char> {
    "Job was abandoned"@
}

/// True iff some worker record carries `id` and was last seen strictly
/// before `deadline`.
pub open spec fn worker_dead(workers: Seq<WorkerModel>, id: Seq<char>, deadline: int) -> bool {
    exists|k: int|
        0 <= k < workers.len() && (#[trigger] workers[k]).id == id && workers[k].last_seen
            < deadline
}

/// A Running row whose holder was last seen before `deadline`: abandoned.
pub open spec fn orphaned(j: JobModel, workers: Seq<WorkerModel>, deadline: int) -> bool {
    j.status == JobStatus::Running && match j.lock_by {
        Some(w) => worker_dead(workers, w, deadline),
        None => false,
    }
}

/// The reaped row: back to Pending, lock cleared, diagnostic set.
pub open spec fn abandon_transition(j: JobModel) -> JobModel {
    JobModel {
        status: JobStatus::Pending,
        lock_by: None,
        lock_at: None,
        done_at: None,
        last_error: Some(abandoned_message()),
        ..j
    }
}

/// Number of orphaned rows among `jobs`.
pub open spec fn count_orphaned(jobs: Seq<JobModel>, workers: Seq<WorkerModel>, deadline: int) -> nat
    decreases jobs.len(),
{
    if jobs.len() == 0 {
        0
    } else {
        count_orphaned(jobs.drop_last(), workers, deadline) + if orphaned(
            jobs.last(),
            workers,
            deadline,
        ) {
            1nat
        } else {
            0nat
        }
    }
}

/// A Failed row that may still re-enter the queue.
pub open spec fn retryable(j: JobModel) -> bool {
    j.status == JobStatus::Failed && j.attempts < j.max_attempts
}

/// The re-entry transition: back to Pending with the lock cleared; this is
/// the boundary at which retry accounting increments `attempts`.
pub open spec fn enqueue_transition(j: JobModel) -> JobModel {
    JobModel {
        status: JobStatus::Pending,
        lock_by: None,
        lock_at: None,
        done_at: None,
        attempts: (j.attempts + 1) as nat,
        ..j
    }
}

/// Number of retryable rows among `jobs`.
pub open spec fn count_retryable(jobs: Seq<JobModel>) -> nat
    decreases jobs.len(),
{
    if jobs.len() == 0 {
        0
    } else {
        count_retryable(jobs.drop_last()) + if retryable(jobs.last()) {
            1nat
        } else {
            0nat
        }
    }
}

/// The selection key of a row's lock: the bulk operations take rows by
/// `lock_at` ascending, and a row without `lock_at` comes before every row
/// with one.
pub open spec fn lock_key(j: JobModel) -> int {
    match j.lock_at {
        Some(t) => t,
        None => i64::MIN - 1,
    }
}

/// The key a lock snapshot entry encodes.
pub open spec fn key_of(has: bool, val: i64) -> int {
    if has {
        val as int
    } else {
        i64::MIN - 1
    }
}

/// Row `a` at position `apos` is taken before the row with key `key` at
/// position `idx`: `lock_at` ascending, ties by row order.
pub open spec fn taken_before(a: JobModel, apos: int, key: int, idx: int) -> bool {
    lock_key(a) < key || (lock_key(a) == key && apos < idx)
}

/// Number of orphaned rows taken before the row with key `key` at
/// position `idx`.
pub open spec fn orphans_before(
    jobs: Seq<JobModel>,
    workers: Seq<WorkerModel>,
    deadline: int,
    key: int,
    idx: int,
) -> nat
    decreases jobs.len(),
{
    if jobs.len() == 0 {
        0
    } else {
        orphans_before(jobs.drop_last(), workers, deadline, key, idx) + if orphaned(
            jobs.last(),
            workers,
            deadline,
        ) && taken_before(jobs.last(), jobs.len() - 1, key, idx) {
            1nat
        } else {
            0nat
        }
    }
}

/// Number of retryable rows taken before the row with key `key` at
/// position `idx`.
pub open spec fn retryable_before(jobs: Seq<JobModel>, key: int, idx: int) -> nat
    decreases jobs.len(),
{
    if jobs.len() == 0 {
        0
    } else {
        retryable_before(jobs.drop_last(), key, idx) + if retryable(jobs.last()) && taken_before(
            jobs.last(),
            jobs.len() - 1,
            key,
            idx,
        ) {
            1nat
        } else {
            0nat
        }
    }
}

/// Exec form of `taken_before` over lock snapshot entries.
fn taken_before_exec(
    a_has: bool,
    a_val: i64,
    apos: usize,
    b_has: bool,
    b_val: i64,
    bpos: usize,
) -> (r: bool)
    ensures
        r == (key_of(a_has, a_val) < key_of(b_has, b_val) || (key_of(a_has, a_val) == key_of(
            b_has,
            b_val,
        ) && apos < bpos)),
{
    if a_has {
        if b_has {
            a_val < b_val || (a_val == b_val && apos < bpos)
        } else {
            false
        }
    } else {
        if b_has {
            true
        } else {
            apos < bpos
        }
    }
}

/// How many rows the orphan snapshot marks as taken before position `i`.
fn orphan_rank(
    flag: &Vec<bool>,
    has: &Vec<bool>,
    val: &Vec<i64>,
    i: usize,
    Ghost(jobs): Ghost<Seq<JobModel>>,
    Ghost(workers): Ghost<Seq<WorkerModel>>,
    Ghost(deadline): Ghost<int>,
) -> (rank: usize)
    requires
        flag@.len() == jobs.len(),
        has@.len() == jobs.len(),
        val@.len() == jobs.len(),
        i < jobs.len(),
        forall|k: int| 0 <= k < jobs.len() ==> flag@[k] == orphaned(jobs[k], workers, deadline),
        forall|k: int| 0 <= k < jobs.len() ==> key_of(has@[k], val@[k]) == lock_key(jobs[k]),
    ensures
        rank as nat == orphans_before(jobs, workers, deadline, lock_key(jobs[i as int]), i as int),
{
    let ghost key_i = lock_key(jobs[i as int]);
    let mut rank: usize = 0;
    let mut j: usize = 0;
    while j < flag.len()
        invariant
            0 <= j <= flag@.len(),
            rank <= j,
            flag@.len() == jobs.len(),
            has@.len() == jobs.len(),
            val@.len() == jobs.len(),
            i < jobs.len(),
            key_i == lock_key(jobs[i as int]),
            key_i == key_of(has@[i as int], val@[i as int]),
            forall|k: int| 0 <= k < jobs.len() ==> flag@[k] == orphaned(jobs[k], workers, deadline),
            forall|k: int| 0 <= k < jobs.len() ==> key_of(has@[k], val@[k]) == lock_key(jobs[k]),
            rank as nat == orphans_before(jobs.subrange(0, j as int), workers, deadline, key_i, i as int),
        decreases flag@.len() - j,
    {
        proof {
            assert(jobs.subrange(0, j + 1).drop_last() =~= jobs.subrange(0, j as int));
            assert(jobs.subrange(0, j + 1).last() == jobs[j as int]);
        }
        let ahead = taken_before_exec(has[j], val[j], j, has[i], val[i], i);
        if flag[j] && ahead {
            rank += 1;
        }
        j += 1;
    }
    proof {
        assert(jobs.subrange(0, j as int) =~= jobs);
    }
    rank
}

/// How many rows the retryable snapshot marks as taken before position `i`.
fn retryable_rank(
    flag: &Vec<bool>,
    has: &Vec<bool>,
    val: &Vec<i64>,
    i: usize,
    Ghost(jobs): Ghost<Seq<JobModel>>,
) -> (rank: usize)
    requires
        flag@.len() == jobs.len(),
        has@.len() == jobs.len(),
        val@.len() == jobs.len(),
        i < jobs.len(),
        forall|k: int| 0 <= k < jobs.len() ==> flag@[k] == retryable(jobs[k]),
        forall|k: int| 0 <= k < jobs.len() ==> key_of(has@[k], val@[k]) == lock_key(jobs[k]),
    ensures
        rank as nat == retryable_before(jobs, lock_key(jobs[i as int]), i as int),
{
    let ghost key_i = lock_key(jobs[i as int]);
    let mut rank: usize = 0;
    let mut j: usize = 0;
    while j < flag.len()
        invariant
            0 <= j <= flag@.len(),
            rank <= j,
            flag@.len() == jobs.len(),
            has@.len() == jobs.len(),
            val@.len() == jobs.len(),
            i < jobs.len(),
            key_i == lock_key(jobs[i as int]),
            key_i == key_of(has@[i as int], val@[i as int]),
            forall|k: int| 0 <= k < jobs.len() ==> flag@[k] == retryable(jobs[k]),
            forall|k: int| 0 <= k < jobs.len() ==> key_of(has@[k], val@[k]) == lock_key(jobs[k]),
            rank as nat == retryable_before(jobs.subrange(0, j as int), key_i, i as int),
        decreases flag@.len() - j,
    {
        proof {
            assert(jobs.subrange(0, j + 1).drop_last() =~= jobs.subrange(0, j as int));
            assert(jobs.subrange(0, j + 1).last() == jobs[j as int]);
        }
        let ahead = taken_before_exec(has[j], val[j], j, has[i], val[i], i);
        if flag[j] && ahead {
            rank += 1;
        }
        j += 1;
    }
    proof {
        assert(jobs.subrange(0, j as int) =~= jobs);
    }
    rank
}

/// The diagnostic written to a reaped row.
pub fn abandoned_error() -> (s: String)
    ensures
        s@ == abandoned_message(),
{
    String::from_str("Job was abandoned")
}

/// The store of jobs and worker records.
pub struct JobStore {
    pub jobs: Vec<JobRow>,
    pub workers: Vec<WorkerRow>,
    pub next_id: u64,
}

impl View for JobStore {
    type V = StoreModel;

    open spec fn view(&self) -> StoreModel {
        StoreModel {
            jobs: self.jobs@.map_values(|r: JobRow| r@),
            workers: self.workers@.map_values(|r: WorkerRow| r@),
            next_id: self.next_id as nat,
        }
    }
}

impl JobStore {
    /// An empty store.
    pub fn new() -> (s: JobStore)
        ensures
            s@.wf(),
            s@.jobs.len() == 0,
            s@.workers.len() == 0,
            s@.next_id == 0,
    {
        JobStore { jobs: Vec::new(), workers: Vec::new(), next_id: 0 }
    }

    /// Index of the row carrying `job_id`, if one exists.
    fn find_index(&self, job_id: u64) -> (r: Option<usize>)
        ensures
            match r {
                Some(i) => 0 <= i < self@.jobs.len() && self@.jobs[i as int].id == job_id as nat,
                None => forall|k: int|
                    0 <= k < self@.jobs.len() ==> (#[trigger] self@.jobs[k]).id != job_id as nat,
            },
    {
        let mut i: usize = 0;
        while i < self.jobs.len()
            invariant
                0 <= i <= self.jobs.len(),
                forall|k: int| 0 <= k < i ==> (#[trigger] self@.jobs[k]).id != job_id as nat,
            decreases self.jobs.len() - i,
        {
            if self.jobs[i].id == job_id {
                return Some(i);
            }
            i += 1;
        }
        None
    }

    /// Inserts a new job: Pending, zero attempts, the default retry bound,
    /// eligible at once (`run_at = now`). Returns the assigned id.
    pub fn push(&mut self, payload: String, job_type: String, now: i64) -> (id: u64)
        requires
            old(self)@.wf(),
            old(self)@.next_id < u64::MAX,
        ensures
            final(self)@.wf(),
            id as nat == old(self)@.next_id,
            final(self)@.next_id == old(self)@.next_id + 1,
            final(self)@.workers == old(self)@.workers,
            final(self)@.jobs
                == old(self)@.jobs.push(
                fresh_job(old(self)@.next_id, payload@, job_type@, now as int),
            ),
    {
        self.schedule(payload, job_type, now)
    }

    /// Inserts a new job as `push` does, but eligible only from the
    /// caller-supplied `run_at`.
    pub fn schedule(&mut self, payload: String, job_type: String, run_at: i64) -> (id: u64)
        requires
            old(self)@.wf(),
            old(self)@.next_id < u64::MAX,
        ensures
            final(self)@.wf(),
            id as nat == old(self)@.next_id,
            final(self)@.next_id == old(self)@.next_id + 1,
            final(self)@.workers == old(self)@.workers,
            final(self)@.jobs
                == old(self)@.jobs.push(
                fresh_job(old(self)@.next_id, payload@, job_type@, run_at as int),
            ),
    {
        let ghost p = payload@;
        let ghost jt = job_type@;
        let id = self.next_id;
        let row = JobRow {
            id,
            payload,
            job_type,
            status: JobStatus::Pending,
            attempts: 0,
            max_attempts: DEFAULT_MAX_ATTEMPTS,
            run_at,
            lock_by: None,
            lock_at: None,
            done_at: None,
            last_error: None,
        };
        self.jobs.push(row);
        self.next_id = id + 1;
        proof {
            let f = fresh_job(old(self)@.next_id, p, jt, run_at as int);
            assert(self@.jobs =~= old(self)@.jobs.push(f));
            assert(self@.workers =~= old(self)@.workers);
            assert(f.wf());
            assert forall|i: int| 0 <= i < self@.jobs.len() implies (#[trigger] self@.jobs[i]).wf()
                && self@.jobs[i].id < self@.next_id by {
                if i < old(self)@.jobs.len() {
                    assert(self@.jobs[i] == old(self)@.jobs[i]);
                } else {
                    assert(self@.jobs[i] == f);
                }
            }
            assert forall|i: int, j: int|
                0 <= i < self@.jobs.len() && 0 <= j < self@.jobs.len() && i != j implies (
            #[trigger] self@.jobs[i]).id != (#[trigger] self@.jobs[j]).id by {
                if i < old(self)@.jobs.len() && j < old(self)@.jobs.len() {
                    assert(old(self)@.jobs[i].id != old(self)@.jobs[j].id);
                }
            }
        }
        id
    }

    /// Read-only snapshot of the row carrying `job_id`.
    pub fn fetch_by_id(&self, job_id: u64) -> (r: Option<JobRow>)
        ensures
            match r {
                Some(row) => row@.id == job_id as nat && exists|i: int|
                    0 <= i < self@.jobs.len() && #[trigger] self@.jobs[i] == row@,
                None => forall|i: int|
                    0 <= i < self@.jobs.len() ==> (#[trigger] self@.jobs[i]).id != job_id as nat,
            },
    {
        match self.find_index(job_id) {
            Some(i) => Some(self.jobs[i].clone_row()),
            None => None,
        }
    }

    /// Count of Pending rows. Approximate from the caller's point of view:
    /// it is taken outside any claim transaction.
    pub fn len(&self) -> (n: usize)
        ensures
            n as nat == count_with_status(self@.jobs, JobStatus::Pending),
    {
        let mut i: usize = 0;
        let mut c: usize = 0;
        while i < self.jobs.len()
            invariant
                0 <= i <= self.jobs.len(),
                c <= i,
                c as nat == count_with_status(
                    self@.jobs.subrange(0, i as int),
                    JobStatus::Pending,
                ),
            decreases self.jobs.len() - i,
        {
            proof {
                assert(self@.jobs.subrange(0, i + 1).drop_last() =~= self@.jobs.subrange(
                    0,
                    i as int,
                ));
                assert(self@.jobs.subrange(0, i + 1).last() == self@.jobs[i as int]);
            }
            if self.jobs[i].status == JobStatus::Pending {
                c += 1;
            }
            i += 1;
        }
        proof {
            assert(self@.jobs.subrange(0, i as int) =~= self@.jobs);
        }
        c
    }

    /// True iff no row is Pending; the convenience form of `len() == 0`.
    pub fn is_empty(&self) -> (r: bool)
        ensures
            r <==> count_with_status(self@.jobs, JobStatus::Pending) == 0,
    {
        self.len() == 0
    }

    /// Replaces the row at index `i`.
    fn replace_at(&mut self, i: usize, row: JobRow)
        requires
            i < old(self)@.jobs.len(),
        ensures
            final(self)@.jobs == old(self)@.jobs.update(i as int, row@),
            final(self)@.workers == old(self)@.workers,
            final(self)@.next_id == old(self)@.next_id,
    {
        let ghost r = row@;
        let _ = self.jobs.remove(i);
        self.jobs.insert(i, row);
        proof {
            assert(self@.jobs =~= old(self)@.jobs.update(i as int, r));
            assert(self@.workers =~= old(self)@.workers);
        }
    }

    /// True iff the row at `i` is currently locked by `worker_id`.
    fn held_by(&self, i: usize, worker_id: &String) -> (r: bool)
        requires
            i < self@.jobs.len(),
        ensures
            r <==> self@.jobs[i as int].lock_by == Some(worker_id@),
    {
        match &self.jobs[i].lock_by {
            Some(l) => l.eq(worker_id),
            None => false,
        }
    }

    /// Acknowledges completion: if `job_id` is held by `worker_id`, the row
    /// becomes Done with `done_at = now`; otherwise the store is unchanged.
    pub fn ack(&mut self, worker_id: &String, job_id: u64, now: i64)
        requires
            old(self)@.wf(),
        ensures
            final(self)@.wf(),
            final(self)@.workers == old(self)@.workers,
            final(self)@.next_id == old(self)@.next_id,
            final(self)@.jobs.len() == old(self)@.jobs.len(),
            forall|i: int|
                0 <= i < old(self)@.jobs.len() ==> final(self)@.jobs[i] == ack_transition(
                    old(self)@.jobs[i],
                    worker_id@,
                    job_id as nat,
                    now as int,
                ),
    {
        let idx = match self.find_index(job_id) {
            Some(i) => i,
            None => {
                return ;
            },
        };
        if self.held_by(idx, worker_id) {
            let mut row = self.jobs[idx].clone_row();
            row.status = JobStatus::Done;
            row.done_at = Some(now);
            self.replace_at(idx, row);
        }
        proof {
            lemma_guarded_update_wf(old(self)@, self@, idx as int);
        }
    }

    /// Kills the job: the same guard as `ack`, but the row becomes Killed.
    pub fn kill(&mut self, worker_id: &String, job_id: u64, now: i64)
        requires
            old(self)@.wf(),
        ensures
            final(self)@.wf(),
            final(self)@.workers == old(self)@.workers,
            final(self)@.next_id == old(self)@.next_id,
            final(self)@.jobs.len() == old(self)@.jobs.len(),
            forall|i: int|
                0 <= i < old(self)@.jobs.len() ==> final(self)@.jobs[i] == kill_transition(
                    old(self)@.jobs[i],
                    worker_id@,
                    job_id as nat,
                    now as int,
                ),
    {
        let idx = match self.find_index(job_id) {
            Some(i) => i,
            None => {
                return ;
            },
        };
        if self.held_by(idx, worker_id) {
            let mut row = self.jobs[idx].clone_row();
            row.status = JobStatus::Killed;
            row.done_at = Some(now);
            self.replace_at(idx, row);
        }
        proof {
            lemma_guarded_update_wf(old(self)@, self@, idx as int);
        }
    }

    /// Puts the job instantly back into the queue: the same guard as `ack`,
    /// but the row becomes Pending with the lock cleared. Another worker may
    /// consume it. `attempts` is unchanged.
    pub fn retry(&mut self, worker_id: &String, job_id: u64)
        requires
            old(self)@.wf(),
        ensures
            final(self)@.wf(),
            final(self)@.workers == old(self)@.workers,
            final(self)@.next_id == old(self)@.next_id,
            final(self)@.jobs.len() == old(self)@.jobs.len(),
            forall|i: int|
                0 <= i < old(self)@.jobs.len() ==> final(self)@.jobs[i] == retry_transition(
                    old(self)@.jobs[i],
                    worker_id@,
                    job_id as nat,
                ),
    {
        let idx = match self.find_index(job_id) {
            Some(i) => i,
            None => {
                return ;
            },
        };
        if self.held_by(idx, worker_id) {
            let mut row = self.jobs[idx].clone_row();
            row.status = JobStatus::Pending;
            row.lock_by = None;
            row.lock_at = None;
            row.done_at = None;
            self.replace_at(idx, row);
        }
        proof {
            lemma_guarded_update_wf(old(self)@, self@, idx as int);
        }
    }

    /// Marks the job Failed and reschedules it `wait_secs` ahead of `now`,
    /// clearing the lock; `attempts` is unchanged. Fails with
    /// `StorageError::Database` exactly when the new `run_at` overflows the
    /// on-disk integer type.
    pub fn reschedule(&mut self, job_id: u64, wait_secs: u64, now: i64) -> (r: Result<
        (),
        StorageError,
    >)
        requires
            old(self)@.wf(),
        ensures
            final(self)@.wf(),
            final(self)@.workers == old(self)@.workers,
            final(self)@.next_id == old(self)@.next_id,
            final(self)@.jobs.len() == old(self)@.jobs.len(),
            r is Ok <==> wait_secs <= i64::MAX && now + wait_secs <= i64::MAX,
            r is Err ==> final(self)@.jobs == old(self)@.jobs && r == Err::<(), StorageError>(
                StorageError::Database,
            ),
            r is Ok ==> forall|i: int|
                0 <= i < old(self)@.jobs.len() ==> final(self)@.jobs[i] == reschedule_transition(
                    old(self)@.jobs[i],
                    job_id as nat,
                    now + wait_secs,
                ),
    {
        if wait_secs > i64::MAX as u64 {
            return Err(StorageError::Database);
        }
        let wait = wait_secs as i64;
        if now > i64::MAX - wait {
            return Err(StorageError::Database);
        }
        let run_at = now + wait;
        let idx = match self.find_index(job_id) {
            Some(i) => i,
            None => {
                return Ok(());
            },
        };
        let mut row = self.jobs[idx].clone_row();
        row.status = JobStatus::Failed;
        row.lock_by = None;
        row.lock_at = None;
        row.done_at = None;
        row.run_at = run_at;
        self.replace_at(idx, row);
        proof {
            lemma_guarded_update_wf(old(self)@, self@, idx as int);
        }
        Ok(())
    }

    /// Persists the mutable fields of `row` onto the stored row with the
    /// same id. The caller supplies a combination that the row invariant
    /// accepts; a missing id leaves the store unchanged.
    pub fn update(&mut self, row: &JobRow)
        requires
            old(self)@.wf(),
            forall|i: int|
                0 <= i < old(self)@.jobs.len() && (#[trigger] old(self)@.jobs[i]).id == row@.id
                    ==> update_transition(old(self)@.jobs[i], row@).wf(),
        ensures
            final(self)@.wf(),
            final(self)@.workers == old(self)@.workers,
            final(self)@.next_id == old(self)@.next_id,
            final(self)@.jobs.len() == old(self)@.jobs.len(),
            forall|i: int|
                0 <= i < old(self)@.jobs.len() ==> final(self)@.jobs[i] == update_transition(
                    old(self)@.jobs[i],
                    row@,
                ),
    {
        let idx = match self.find_index(row.id) {
            Some(i) => i,
            None => {
                return ;
            },
        };
        let mut stored = self.jobs[idx].clone_row();
        stored.status = row.status;
        stored.attempts = row.attempts;
        stored.done_at = row.done_at;
        stored.lock_by = match &row.lock_by {
            Some(w) => Some(w.clone()),
            None => None,
        };
        stored.lock_at = row.lock_at;
        stored.last_error = match &row.last_error {
            Some(e) => Some(e.clone()),
            None => None,
        };
        self.replace_at(idx, stored);
        proof {
            lemma_guarded_update_wf(old(self)@, self@, idx as int);
        }
    }
}

impl JobStore {
    /// Attempts the atomic claim of `job_id` for `worker_id`: the claim
    /// update followed by the read-your-writes select. The result is the row
    /// iff it is now held by `worker_id` with the right type — so a losing
    /// worker sees nothing and drops the candidate silently.
    pub fn fetch_next(
        &mut self,
        worker_id: &String,
        job_id: u64,
        job_type: &String,
        now: i64,
    ) -> (r: Option<JobRow>)
        requires
            old(self)@.wf(),
        ensures
            final(self)@.wf(),
            final(self)@.workers == old(self)@.workers,
            final(self)@.next_id == old(self)@.next_id,
            final(self)@.jobs.len() == old(self)@.jobs.len(),
            forall|i: int|
                0 <= i < old(self)@.jobs.len() ==> final(self)@.jobs[i] == claim_transition(
                    old(self)@.jobs[i],
                    worker_id@,
                    job_id as nat,
                    job_type@,
                    now as int,
                ),
            match r {
                Some(row) => row@.id == job_id as nat && row@.job_type == job_type@ && row@.lock_by
                    == Some(worker_id@) && exists|i: int|
                    0 <= i < final(self)@.jobs.len() && #[trigger] final(self)@.jobs[i] == row@,
                None => forall|i: int|
                    0 <= i < final(self)@.jobs.len() && (#[trigger] final(self)@.jobs[i]).id
                        == job_id as nat ==> !(final(self)@.jobs[i].job_type == job_type@
                        && final(self)@.jobs[i].lock_by == Some(worker_id@)),
            },
    {
        let idx = match self.find_index(job_id) {
            Some(i) => i,
            None => {
                return None;
            },
        };
        let claimable = self.jobs[idx].job_type.eq(job_type) && self.jobs[idx].status
            == JobStatus::Pending && self.jobs[idx].lock_by.is_none();
        if claimable {
            let mut row = self.jobs[idx].clone_row();
            row.status = JobStatus::Running;
            row.lock_by = Some(worker_id.clone());
            row.lock_at = Some(now);
            self.replace_at(idx, row);
        }
        proof {
            lemma_guarded_update_wf(old(self)@, self@, idx as int);
        }
        let selected = self.jobs[idx].job_type.eq(job_type) && self.held_by(idx, worker_id);
        if selected {
            Some(self.jobs[idx].clone_row())
        } else {
            None
        }
    }

    /// Heartbeat upsert: keeps the store notified that the worker is still
    /// alive. A new `worker_id` inserts a record; an existing one has only
    /// its `last_seen` refreshed.
    pub fn keep_alive_at(
        &mut self,
        worker_id: &String,
        worker_type: String,
        storage_name: String,
        layers: String,
        last_seen: i64,
    )
        requires
            old(self)@.wf(),
        ensures
            final(self)@.wf(),
            final(self)@.jobs == old(self)@.jobs,
            final(self)@.next_id == old(self)@.next_id,
            (exists|i: int|
                0 <= i < old(self)@.workers.len() && (#[trigger] old(self)@.workers[i]).id
                    == worker_id@) ==> final(self)@.workers.len() == old(self)@.workers.len()
                && forall|i: int|
                0 <= i < old(self)@.workers.len() ==> final(self)@.workers[i] == (
                if old(self)@.workers[i].id == worker_id@ {
                    WorkerModel { last_seen: last_seen as int, ..old(self)@.workers[i] }
                } else {
                    old(self)@.workers[i]
                }),
            !(exists|i: int|
                0 <= i < old(self)@.workers.len() && (#[trigger] old(self)@.workers[i]).id
                    == worker_id@) ==> final(self)@.workers == old(self)@.workers.push(
                WorkerModel {
                    id: worker_id@,
                    worker_type: worker_type@,
                    storage_name: storage_name@,
                    layers: layers@,
                    last_seen: last_seen as int,
                },
            ),
    {
        let ghost wt = worker_type@;
        let ghost sn = storage_name@;
        let ghost ly = layers@;
        match find_worker(&self.workers, worker_id) {
            Some(i) => {
                let mut rec = self.workers[i].clone_row();
                rec.last_seen = last_seen;
                let ghost r = rec@;
                let _ = self.workers.remove(i);
                self.workers.insert(i, rec);
                proof {
                    let i0 = i as int;
                    assert(old(self)@.workers[i0].id == worker_id@);
                    assert(self@.workers =~= old(self)@.workers.update(i0, r));
                    assert(self@.jobs =~= old(self)@.jobs);
                    assert forall|k: int| 0 <= k < old(self)@.workers.len() implies self@.workers[k]
                        == (if old(self)@.workers[k].id == worker_id@ {
                        WorkerModel { last_seen: last_seen as int, ..old(self)@.workers[k] }
                    } else {
                        old(self)@.workers[k]
                    }) by {
                        if k != i0 {
                            assert(old(self)@.workers[k].id != old(self)@.workers[i0].id);
                        }
                    }
                    assert forall|k: int, l: int|
                        0 <= k < self@.workers.len() && 0 <= l < self@.workers.len() && k != l
                            implies (#[trigger] self@.workers[k]).id != (
                    #[trigger] self@.workers[l]).id by {
                        assert(old(self)@.workers[k].id != old(self)@.workers[l].id);
                    }
                }
            },
            None => {
                let rec = WorkerRow {
                    id: worker_id.clone(),
                    worker_type,
                    storage_name,
                    layers,
                    last_seen,
                };
                let ghost r = rec@;
                self.workers.push(rec);
                proof {
                    assert forall|k: int| 0 <= k < old(self)@.workers.len() implies (
                    #[trigger] old(self)@.workers[k]).id != worker_id@ by {
                        assert(old(self).workers@[k]@.id != worker_id@);
                    }
                    assert(self@.workers =~= old(self)@.workers.push(r));
                    assert(self@.jobs =~= old(self)@.jobs);
                    assert forall|k: int, l: int|
                        0 <= k < self@.workers.len() && 0 <= l < self@.workers.len() && k != l
                            implies (#[trigger] self@.workers[k]).id != (
                    #[trigger] self@.workers[l]).id by {
                        if k < old(self)@.workers.len() && l < old(self)@.workers.len() {
                            assert(old(self)@.workers[k].id != old(self)@.workers[l].id);
                        }
                    }
                }
            },
        }
    }
}

impl JobStore {
    /// True iff the row at `i` is a Running row abandoned by a worker last
    /// seen before `deadline`.
    fn is_orphaned_at(&self, i: usize, deadline: i64) -> (r: bool)
        requires
            self@.wf(),
            i < self@.jobs.len(),
        ensures
            r == orphaned(self@.jobs[i as int], self@.workers, deadline as int),
    {
        if !(self.jobs[i].status == JobStatus::Running) {
            return false;
        }
        let holder = match &self.jobs[i].lock_by {
            Some(l) => l.clone(),
            None => {
                return false;
            },
        };
        match find_worker(&self.workers, &holder) {
            Some(w) => {
                let late = self.workers[w].last_seen < deadline;
                proof {
                    let w0 = w as int;
                    assert(self@.workers[w0] == self.workers@[w0]@);
                    if !late {
                        assert forall|k: int|
                            !(0 <= k < self@.workers.len() && (#[trigger] self@.workers[k]).id
                                == holder@ && self@.workers[k].last_seen < deadline) by {
                            if 0 <= k < self@.workers.len() && k != w0 {
                                assert(self@.workers[k].id != self@.workers[w0].id);
                            }
                        }
                    }
                }
                late
            },
            None => {
                proof {
                    assert forall|k: int|
                        !(0 <= k < self@.workers.len() && (#[trigger] self@.workers[k]).id
                            == holder@ && self@.workers[k].last_seen < deadline) by {
                        if 0 <= k < self@.workers.len() {
                            assert(self@.workers[k] == self.workers@[k]@);
                        }
                    }
                }
                false
            },
        }
    }

    /// Reaps orphans: Running rows whose holder was last seen before
    /// `now - worker_timeout` are reset to Pending with the lock cleared and
    /// `last_error = "Job was abandoned"` — at most `count` of them, taken
    /// by `lock_at` ascending (ties by row order). Rows that are not
    /// orphaned are never touched.
    pub fn reenqueue_orphaned(&mut self, count: usize, worker_timeout: i64, now: i64) -> (r: bool)
        requires
            old(self)@.wf(),
            0 <= worker_timeout,
            i64::MIN <= now - worker_timeout,
        ensures
            final(self)@.wf(),
            final(self)@.workers == old(self)@.workers,
            final(self)@.next_id == old(self)@.next_id,
            final(self)@.jobs.len() == old(self)@.jobs.len(),
            forall|i: int|
                0 <= i < old(self)@.jobs.len() ==> final(self)@.jobs[i] == (if orphaned(
                    old(self)@.jobs[i],
                    old(self)@.workers,
                    now - worker_timeout,
                ) && orphans_before(
                    old(self)@.jobs,
                    old(self)@.workers,
                    now - worker_timeout,
                    lock_key(old(self)@.jobs[i]),
                    i,
                ) < count {
                    abandon_transition(old(self)@.jobs[i])
                } else {
                    old(self)@.jobs[i]
                }),
            r == true,
    {
        let deadline = now - worker_timeout;
        let ghost dl = deadline as int;
        let ghost pre = old(self)@;
        // Snapshot, against the untouched store, which rows are orphaned
        // and what their lock keys are.
        let mut flag: Vec<bool> = Vec::new();
        let mut has: Vec<bool> = Vec::new();
        let mut val: Vec<i64> = Vec::new();
        let mut i: usize = 0;
        while i < self.jobs.len()
            invariant
                old(self)@.wf(),
                pre == old(self)@,
                self@ == pre,
                dl == deadline as int,
                dl == now - worker_timeout,
                0 <= i <= pre.jobs.len(),
                flag@.len() == i,
                has@.len() == i,
                val@.len() == i,
                forall|k: int| 0 <= k < i ==> flag@[k] == orphaned(pre.jobs[k], pre.workers, dl),
                forall|k: int| 0 <= k < i ==> key_of(has@[k], val@[k]) == lock_key(pre.jobs[k]),
            decreases self.jobs.len() - i,
        {
            flag.push(self.is_orphaned_at(i, deadline));
            match self.jobs[i].lock_at {
                Some(t) => {
                    has.push(true);
                    val.push(t);
                },
                None => {
                    has.push(false);
                    val.push(0);
                },
            }
            i += 1;
        }
        // A row moves iff it is orphaned and fewer than `count` orphans are
        // taken before it.
        let n = self.jobs.len();
        let mut i: usize = 0;
        while i < n
            invariant
                old(self)@.wf(),
                self@.wf(),
                pre == old(self)@,
                dl == deadline as int,
                dl == now - worker_timeout,
                n == pre.jobs.len(),
                0 <= i <= n,
                self@.workers == pre.workers,
                self@.next_id == pre.next_id,
                self@.jobs.len() == pre.jobs.len(),
                flag@.len() == n,
                has@.len() == n,
                val@.len() == n,
                forall|k: int| 0 <= k < n ==> flag@[k] == orphaned(pre.jobs[k], pre.workers, dl),
                forall|k: int| 0 <= k < n ==> key_of(has@[k], val@[k]) == lock_key(pre.jobs[k]),
                forall|k: int| i <= k < n ==> self@.jobs[k] == pre.jobs[k],
                forall|k: int|
                    0 <= k < i ==> self@.jobs[k] == (if orphaned(pre.jobs[k], pre.workers, dl)
                        && orphans_before(pre.jobs, pre.workers, dl, lock_key(pre.jobs[k]), k)
                        < count {
                        abandon_transition(pre.jobs[k])
                    } else {
                        pre.jobs[k]
                    }),
            decreases n - i,
        {
            if flag[i] {
                let rank = orphan_rank(&flag, &has, &val, i, Ghost(pre.jobs), Ghost(pre.workers), Ghost(dl));
                if rank < count {
                    let ghost before = self@;
                    let mut row = self.jobs[i].clone_row();
                    row.status = JobStatus::Pending;
                    row.lock_by = None;
                    row.lock_at = None;
                    row.done_at = None;
                    row.last_error = Some(abandoned_error());
                    self.replace_at(i, row);
                    proof {
                        lemma_guarded_update_wf(before, self@, i as int);
                        assert(self@.jobs[i as int] == abandon_transition(pre.jobs[i as int]));
                    }
                }
            }
            i += 1;
        }
        true
    }

    /// Bulk re-entry of retryable rows: up to `count` Failed rows with
    /// `attempts < max_attempts` go back to Pending, taken by `lock_at`
    /// ascending (ties by row order), with `attempts` incremented — the
    /// retry-accounting boundary.
    pub fn enqueue_scheduled(&mut self, count: usize) -> (r: bool)
        requires
            old(self)@.wf(),
        ensures
            final(self)@.wf(),
            final(self)@.workers == old(self)@.workers,
            final(self)@.next_id == old(self)@.next_id,
            final(self)@.jobs.len() == old(self)@.jobs.len(),
            forall|i: int|
                0 <= i < old(self)@.jobs.len() ==> final(self)@.jobs[i] == (if retryable(
                    old(self)@.jobs[i],
                ) && retryable_before(old(self)@.jobs, lock_key(old(self)@.jobs[i]), i) < count {
                    enqueue_transition(old(self)@.jobs[i])
                } else {
                    old(self)@.jobs[i]
                }),
            r == true,
    {
        let ghost pre = old(self)@;
        // Snapshot, against the untouched store, which rows are retryable
        // and what their lock keys are.
        let mut flag: Vec<bool> = Vec::new();
        let mut has: Vec<bool> = Vec::new();
        let mut val: Vec<i64> = Vec::new();
        let mut i: usize = 0;
        while i < self.jobs.len()
            invariant
                old(self)@.wf(),
                pre == old(self)@,
                self@ == pre,
                0 <= i <= pre.jobs.len(),
                flag@.len() == i,
                has@.len() == i,
                val@.len() == i,
                forall|k: int| 0 <= k < i ==> flag@[k] == retryable(pre.jobs[k]),
                forall|k: int| 0 <= k < i ==> key_of(has@[k], val@[k]) == lock_key(pre.jobs[k]),
            decreases self.jobs.len() - i,
        {
            let retr = self.jobs[i].status == JobStatus::Failed && self.jobs[i].attempts
                < self.jobs[i].max_attempts;
            flag.push(retr);
            match self.jobs[i].lock_at {
                Some(t) => {
                    has.push(true);
                    val.push(t);
                },
                None => {
                    has.push(false);
                    val.push(0);
                },
            }
            i += 1;
        }
        // A row re-enters iff it is retryable and fewer than `count`
        // retryable rows are taken before it.
        let n = self.jobs.len();
        let mut i: usize = 0;
        while i < n
            invariant
                old(self)@.wf(),
                self@.wf(),
                pre == old(self)@,
                n == pre.jobs.len(),
                0 <= i <= n,
                self@.workers == pre.workers,
                self@.next_id == pre.next_id,
                self@.jobs.len() == pre.jobs.len(),
                flag@.len() == n,
                has@.len() == n,
                val@.len() == n,
                forall|k: int| 0 <= k < n ==> flag@[k] == retryable(pre.jobs[k]),
                forall|k: int| 0 <= k < n ==> key_of(has@[k], val@[k]) == lock_key(pre.jobs[k]),
                forall|k: int| i <= k < n ==> self@.jobs[k] == pre.jobs[k],
                forall|k: int|
                    0 <= k < i ==> self@.jobs[k] == (if retryable(pre.jobs[k]) && retryable_before(
                        pre.jobs,
                        lock_key(pre.jobs[k]),
                        k,
                    ) < count {
                        enqueue_transition(pre.jobs[k])
                    } else {
                        pre.jobs[k]
                    }),
            decreases n - i,
        {
            if flag[i] {
                let rank = retryable_rank(&flag, &has, &val, i, Ghost(pre.jobs));
                if rank < count {
                    let ghost before = self@;
                    let mut row = self.jobs[i].clone_row();
                    row.status = JobStatus::Pending;
                    row.lock_by = None;
                    row.lock_at = None;
                    row.done_at = None;
                    row.attempts = row.attempts + 1;
                    self.replace_at(i, row);
                    proof {
                        lemma_guarded_update_wf(before, self@, i as int);
                        assert(self@.jobs[i as int] == enqueue_transition(pre.jobs[i as int]));
                    }
                }
            }
            i += 1;
        }
        true
    }
}

/// Index of the record carrying `worker_id`, if one exists.
fn find_worker(workers: &Vec<WorkerRow>, worker_id: &String) -> (r: Option<usize>)
    ensures
        match r {
            Some(i) => 0 <= i < workers@.len() && workers@[i as int]@.id == worker_id@,
            None => forall|k: int|
                0 <= k < workers@.len() ==> (#[trigger] workers@[k])@.id != worker_id@,
        },
{
    let mut i: usize = 0;
    while i < workers.len()
        invariant
            0 <= i <= workers.len(),
            forall|k: int| 0 <= k < i ==> (#[trigger] workers@[k])@.id != worker_id@,
        decreases workers.len() - i,
    {
        if workers[i].id.eq(worker_id) {
            return Some(i);
        }
        i += 1;
    }
    None
}

/// After an update of at most the row at `at` that keeps that row's id and
/// well-formedness, the whole store stays well formed.
proof fn lemma_guarded_update_wf(pre: StoreModel, post: StoreModel, at: int)
    requires
        pre.wf(),
        post.workers == pre.workers,
        post.next_id == pre.next_id,
        post.jobs.len() == pre.jobs.len(),
        forall|i: int| 0 <= i < pre.jobs.len() && i != at ==> post.jobs[i] == pre.jobs[i],
        0 <= at < pre.jobs.len() ==> (#[trigger] post.jobs[at]).wf() && post.jobs[at].id
            == pre.jobs[at].id,
    ensures
        post.wf(),
{
}

} // verus!
