//! The management projection: read-only counts and listings for web and
//! command-line inspection tools. Listings come newest first and paged.

use vstd::prelude::*;

use crate::job::{JobModel, JobRow, JobStatus};
use crate::store::JobStore;
use crate::worker::{WorkerModel, WorkerRow};

verus! {

/// Number of rows of type `job_type` whose status is `st`.
pub open spec fn count_matching(jobs: Seq<JobModel>, st: JobStatus, job_type: Seq<char>) -> nat
    decreases jobs.len(),
{
    if jobs.len() == 0 {
        0
    } else {
        count_matching(jobs.drop_last(), st, job_type) + if jobs.last().status == st
            && jobs.last().job_type == job_type {
            1nat
        } else {
            0nat
        }
    }
}

/// Per-status totals for one job type.
pub struct JobCounts {
    pub pending: usize,
    pub running: usize,
    pub done: usize,
    pub retry: usize,
    pub failed: usize,
    pub killed: usize,
}

/// The listing order of jobs: most recent first, by `done_at` then by
/// `run_at`, descending; a row without `done_at` sorts after all rows with
/// one.
pub open spec fn listed_before(a: JobModel, b: JobModel) -> bool {
    let da = match a.done_at {
        Some(t) => t,
        None => i64::MIN - 1,
    };
    let db = match b.done_at {
        Some(t) => t,
        None => i64::MIN - 1,
    };
    da > db || (da == db && a.run_at >= b.run_at)
}

/// The models of a sequence of job rows.
pub open spec fn job_views(rows: Seq<JobRow>) -> Seq<JobModel> {
    rows.map_values(|r: JobRow| r@)
}

/// The models of a sequence of worker rows.
pub open spec fn worker_views(rows: Seq<WorkerRow>) -> Seq<WorkerModel> {
    rows.map_values(|r: WorkerRow| r@)
}

/// `j` inserted into the listing `s`: behind every row listed before it.
pub open spec fn insert_listed_spec(s: Seq<JobModel>, j: JobModel) -> Seq<JobModel>
    decreases s.len(),
{
    if s.len() == 0 {
        seq![j]
    } else if listed_before(s[0], j) {
        seq![s[0]] + insert_listed_spec(s.drop_first(), j)
    } else {
        seq![j] + s
    }
}

/// The full listing of the rows of `job_type` in state `st`: every
/// matching row, most recent first, later rows inserted behind earlier
/// ties.
pub open spec fn job_listing(jobs: Seq<JobModel>, st: JobStatus, job_type: Seq<char>) -> Seq<
    JobModel,
>
    decreases jobs.len(),
{
    if jobs.len() == 0 {
        Seq::empty()
    } else {
        let rest = job_listing(jobs.drop_last(), st, job_type);
        if jobs.last().status == st && jobs.last().job_type == job_type {
            insert_listed_spec(rest, jobs.last())
        } else {
            rest
        }
    }
}

/// `w` inserted into the worker listing `s`: behind every record listed
/// before it.
pub open spec fn insert_worker_listed_spec(s: Seq<WorkerModel>, w: WorkerModel) -> Seq<WorkerModel>
    decreases s.len(),
{
    if s.len() == 0 {
        seq![w]
    } else if worker_listed_before(s[0], w) {
        seq![s[0]] + insert_worker_listed_spec(s.drop_first(), w)
    } else {
        seq![w] + s
    }
}

/// The full listing of the worker records serving `worker_type`: every
/// matching record, most recently seen first, later records inserted
/// behind earlier ties.
pub open spec fn worker_listing(workers: Seq<WorkerModel>, worker_type: Seq<char>) -> Seq<
    WorkerModel,
>
    decreases workers.len(),
{
    if workers.len() == 0 {
        Seq::empty()
    } else {
        let rest = worker_listing(workers.drop_last(), worker_type);
        if workers.last().worker_type == worker_type {
            insert_worker_listed_spec(rest, workers.last())
        } else {
            rest
        }
    }
}

/// Inserting at the first position whose row is not listed before the
/// newcomer is what the listing insertion does.
proof fn lemma_insert_listed_at(s: Seq<JobModel>, j: JobModel, p: int)
    requires
        0 <= p <= s.len(),
        forall|k: int| 0 <= k < p ==> listed_before(#[trigger] s[k], j),
        p < s.len() ==> !listed_before(s[p], j),
    ensures
        insert_listed_spec(s, j) == s.insert(p, j),
    decreases s.len(),
{
    if s.len() == 0 {
        assert(insert_listed_spec(s, j) =~= s.insert(0, j));
    } else if p == 0 {
        assert(insert_listed_spec(s, j) =~= s.insert(0, j));
    } else {
        assert(listed_before(s[0], j));
        assert forall|k: int| 0 <= k < p - 1 implies listed_before(
            #[trigger] s.drop_first()[k],
            j,
        ) by {
            assert(s.drop_first()[k] == s[k + 1]);
        }
        if p - 1 < s.drop_first().len() {
            assert(s.drop_first()[p - 1] == s[p]);
        }
        lemma_insert_listed_at(s.drop_first(), j, p - 1);
        assert(seq![s[0]] + s.drop_first().insert(p - 1, j) =~= s.insert(p, j));
    }
}

/// The worker form of the insertion-position lemma.
proof fn lemma_insert_worker_listed_at(s: Seq<WorkerModel>, w: WorkerModel, p: int)
    requires
        0 <= p <= s.len(),
        forall|k: int| 0 <= k < p ==> worker_listed_before(#[trigger] s[k], w),
        p < s.len() ==> !worker_listed_before(s[p], w),
    ensures
        insert_worker_listed_spec(s, w) == s.insert(p, w),
    decreases s.len(),
{
    if s.len() == 0 {
        assert(insert_worker_listed_spec(s, w) =~= s.insert(0, w));
    } else if p == 0 {
        assert(insert_worker_listed_spec(s, w) =~= s.insert(0, w));
    } else {
        assert(worker_listed_before(s[0], w));
        assert forall|k: int| 0 <= k < p - 1 implies worker_listed_before(
            #[trigger] s.drop_first()[k],
            w,
        ) by {
            assert(s.drop_first()[k] == s[k + 1]);
        }
        if p - 1 < s.drop_first().len() {
            assert(s.drop_first()[p - 1] == s[p]);
        }
        lemma_insert_worker_listed_at(s.drop_first(), w, p - 1);
        assert(seq![s[0]] + s.drop_first().insert(p - 1, w) =~= s.insert(p, w));
    }
}

impl JobStore {
    /// Per-status totals over the rows of `job_type`.
    pub fn counts(&self, job_type: &String) -> (c: JobCounts)
        ensures
            c.pending as nat == count_matching(self@.jobs, JobStatus::Pending, job_type@),
            c.running as nat == count_matching(self@.jobs, JobStatus::Running, job_type@),
            c.done as nat == count_matching(self@.jobs, JobStatus::Done, job_type@),
            c.retry as nat == count_matching(self@.jobs, JobStatus::Retry, job_type@),
            c.failed as nat == count_matching(self@.jobs, JobStatus::Failed, job_type@),
            c.killed as nat == count_matching(self@.jobs, JobStatus::Killed, job_type@),
    {
        let mut c = JobCounts { pending: 0, running: 0, done: 0, retry: 0, failed: 0, killed: 0 };
        let mut i: usize = 0;
        while i < self.jobs.len()
            invariant
                0 <= i <= self@.jobs.len(),
                c.pending as nat == count_matching(
                    self@.jobs.subrange(0, i as int),
                    JobStatus::Pending,
                    job_type@,
                ),
                c.running as nat == count_matching(
                    self@.jobs.subrange(0, i as int),
                    JobStatus::Running,
                    job_type@,
                ),
                c.done as nat == count_matching(
                    self@.jobs.subrange(0, i as int),
                    JobStatus::Done,
                    job_type@,
                ),
                c.retry as nat == count_matching(
                    self@.jobs.subrange(0, i as int),
                    JobStatus::Retry,
                    job_type@,
                ),
                c.failed as nat == count_matching(
                    self@.jobs.subrange(0, i as int),
                    JobStatus::Failed,
                    job_type@,
                ),
                c.killed as nat == count_matching(
                    self@.jobs.subrange(0, i as int),
                    JobStatus::Killed,
                    job_type@,
                ),
                c.pending <= i && c.running <= i && c.done <= i && c.retry <= i && c.failed <= i
                    && c.killed <= i,
            decreases self.jobs.len() - i,
        {
            proof {
                let pref = self@.jobs.subrange(0, i + 1);
                assert(pref.drop_last() =~= self@.jobs.subrange(0, i as int));
                assert(pref.last() == self@.jobs[i as int]);
            }
            if self.jobs[i].job_type.eq(job_type) {
                match self.jobs[i].status {
                    JobStatus::Pending => c.pending += 1,
                    JobStatus::Running => c.running += 1,
                    JobStatus::Done => c.done += 1,
                    JobStatus::Retry => c.retry += 1,
                    JobStatus::Failed => c.failed += 1,
                    JobStatus::Killed => c.killed += 1,
                }
            }
            i += 1;
        }
        proof {
            assert(self@.jobs.subrange(0, i as int) =~= self@.jobs);
        }
        c
    }
}

/// The listing order is total.
proof fn lemma_listed_before_total(a: JobModel, b: JobModel)
    ensures
        listed_before(a, b) || listed_before(b, a),
{
}

/// The listing order is transitive.
proof fn lemma_listed_before_trans(a: JobModel, b: JobModel, c: JobModel)
    requires
        listed_before(a, b),
        listed_before(b, c),
    ensures
        listed_before(a, c),
{
}

/// Exec form of the listing order.
fn job_listed_before(a: &JobRow, b: &JobRow) -> (r: bool)
    ensures
        r == listed_before(a@, b@),
{
    match (a.done_at, b.done_at) {
        (Some(x), Some(y)) => x > y || (x == y && a.run_at >= b.run_at),
        (Some(_), None) => true,
        (None, Some(_)) => false,
        (None, None) => a.run_at >= b.run_at,
    }
}

impl JobStore {
    /// One page of the rows of `job_type` in state `status`, most recent
    /// first (by `done_at`, then `run_at`, descending), ten to a page,
    /// pages counted from one. Every returned row is a row of the store in
    /// that state, and the page is full unless the matching rows run out.
    pub fn list_jobs(&self, status: JobStatus, job_type: &String, page: usize) -> (r: Vec<JobRow>)
        requires
            page >= 1,
            page * 10 <= usize::MAX,
        ensures
            forall|k: int|
                0 <= k < r@.len() ==> (#[trigger] r@[k])@.status == status && r@[k]@.job_type
                    == job_type@ && exists|m: int|
                    0 <= m < self@.jobs.len() && #[trigger] self@.jobs[m] == r@[k]@,
            forall|a: int, b: int|
                0 <= a < b < r@.len() ==> listed_before((#[trigger] r@[a])@, (#[trigger] r@[b])@),
            r@.len() == ({
                let m = count_matching(self@.jobs, status, job_type@);
                let start = (page - 1) * 10;
                if m <= start {
                    0nat
                } else if m - start >= 10 {
                    10nat
                } else {
                    (m - start) as nat
                }
            }),
            ({
                let all = job_listing(self@.jobs, status, job_type@);
                let start = (page - 1) * 10;
                &&& (all.len() <= start ==> r@.len() == 0)
                &&& (all.len() > start ==> job_views(r@) == all.subrange(
                    start as int,
                    if all.len() - start >= 10 {
                        start + 10
                    } else {
                        all.len() as int
                    },
                ))
            }),
    {
        let sorted = self.collect_sorted(status, job_type);
        let start = (page - 1) * 10;
        let mut out: Vec<JobRow> = Vec::new();
        let mut k = start;
        while k < sorted.len() && out.len() < 10
            invariant
                start <= k <= sorted.len() || (k == start && start > sorted.len()),
                out@.len() == (if k > start {
                    (k - start) as nat
                } else {
                    0nat
                }),
                out@.len() <= 10,
                forall|q: int| 0 <= q < out@.len() ==> (#[trigger] out@[q])@ == sorted@[start + q]@,
                forall|q: int|
                    0 <= q < sorted@.len() ==> ((#[trigger] sorted@[q])@.status == status
                        && sorted@[q]@.job_type == job_type@ && exists|m: int|
                        0 <= m < self@.jobs.len() && #[trigger] self@.jobs[m] == sorted@[q]@),
                forall|a: int, b: int|
                    0 <= a < b < sorted@.len() ==> listed_before(
                        (#[trigger] sorted@[a])@,
                        (#[trigger] sorted@[b])@,
                    ),
                sorted@.len() == count_matching(self@.jobs, status, job_type@),
                job_views(sorted@) == job_listing(self@.jobs, status, job_type@),
            decreases sorted.len() - k,
        {
            let row = sorted[k].clone_row();
            out.push(row);
            k += 1;
        }
        proof {
            let all = job_listing(self@.jobs, status, job_type@);
            if all.len() > start {
                assert(job_views(out@) =~= all.subrange(
                    start as int,
                    start + out@.len() as int,
                ));
            }
        }
        out
    }

    /// The rows of `job_type` in state `status`, sorted for listing.
    fn collect_sorted(&self, status: JobStatus, job_type: &String) -> (r: Vec<JobRow>)
        ensures
            forall|k: int|
                0 <= k < r@.len() ==> ((#[trigger] r@[k])@.status == status && r@[k]@.job_type
                    == job_type@ && exists|m: int|
                    0 <= m < self@.jobs.len() && #[trigger] self@.jobs[m] == r@[k]@),
            forall|a: int, b: int|
                0 <= a < b < r@.len() ==> listed_before((#[trigger] r@[a])@, (#[trigger] r@[b])@),
            r@.len() == count_matching(self@.jobs, status, job_type@),
            job_views(r@) == job_listing(self@.jobs, status, job_type@),
    {
        let mut out: Vec<JobRow> = Vec::new();
        let mut i: usize = 0;
        while i < self.jobs.len()
            invariant
                0 <= i <= self@.jobs.len(),
                forall|k: int|
                    0 <= k < out@.len() ==> ((#[trigger] out@[k])@.status == status
                        && out@[k]@.job_type == job_type@ && exists|m: int|
                        0 <= m < self@.jobs.len() && #[trigger] self@.jobs[m] == out@[k]@),
                forall|a: int, b: int|
                    0 <= a < b < out@.len() ==> listed_before(
                        (#[trigger] out@[a])@,
                        (#[trigger] out@[b])@,
                    ),
                out@.len() == count_matching(
                    self@.jobs.subrange(0, i as int),
                    status,
                    job_type@,
                ),
                job_views(out@) == job_listing(
                    self@.jobs.subrange(0, i as int),
                    status,
                    job_type@,
                ),
            decreases self.jobs.len() - i,
        {
            proof {
                let pref = self@.jobs.subrange(0, i + 1);
                assert(pref.drop_last() =~= self@.jobs.subrange(0, i as int));
                assert(pref.last() == self@.jobs[i as int]);
            }
            if self.jobs[i].status == status && self.jobs[i].job_type.eq(job_type) {
                let row = self.jobs[i].clone_row();
                insert_listed(&mut out, row);
                proof {
                    assert(exists|m: int|
                        0 <= m < self@.jobs.len() && #[trigger] self@.jobs[m] == self@.jobs[
                            i as int
                        ]);
                }
            }
            i += 1;
        }
        proof {
            assert(self@.jobs.subrange(0, i as int) =~= self@.jobs);
        }
        out
    }
}

/// Inserts `row` into a listing-sorted vector, keeping it sorted; every
/// element afterwards is either an element from before or `row` itself.
fn insert_listed(out: &mut Vec<JobRow>, row: JobRow)
    requires
        forall|a: int, b: int|
            0 <= a < b < old(out)@.len() ==> listed_before(
                (#[trigger] old(out)@[a])@,
                (#[trigger] old(out)@[b])@,
            ),
    ensures
        final(out)@.len() == old(out)@.len() + 1,
        forall|a: int, b: int|
            0 <= a < b < final(out)@.len() ==> listed_before(
                (#[trigger] final(out)@[a])@,
                (#[trigger] final(out)@[b])@,
            ),
        forall|k: int|
            0 <= k < final(out)@.len() ==> (#[trigger] final(out)@[k])@ == row@ || exists|m: int|
                0 <= m < old(out)@.len() && (#[trigger] old(out)@[m])@ == final(out)@[k]@,
        job_views(final(out)@) == insert_listed_spec(job_views(old(out)@), row@),
{
    let mut j: usize = 0;
    while j < out.len() && job_listed_before(&out[j], &row)
        invariant
            0 <= j <= out@.len(),
            out@ == old(out)@,
            forall|k: int| 0 <= k < j ==> listed_before((#[trigger] out@[k])@, row@),
        decreases out@.len() - j,
    {
        j += 1;
    }
    let ghost jj = j as int;
    let ghost pre = out@;
    proof {
        if jj < pre.len() {
            lemma_listed_before_total(pre[jj]@, row@);
        }
    }
    out.insert(j, row);
    proof {
        assert forall|a: int, b: int| 0 <= a < b < out@.len() implies listed_before(
            (#[trigger] out@[a])@,
            (#[trigger] out@[b])@,
        ) by {
            if b < jj {
                assert(out@[a] == pre[a] && out@[b] == pre[b]);
            } else if a > jj {
                assert(out@[a] == pre[a - 1] && out@[b] == pre[b - 1]);
            } else if a < jj && b == jj {
                assert(out@[a] == pre[a]);
            } else if a == jj {
                assert(out@[b] == pre[b - 1]);
                if jj < pre.len() {
                    if b - 1 > jj {
                        lemma_listed_before_trans(row@, pre[jj]@, pre[b - 1]@);
                    }
                }
            } else {
                assert(out@[a] == pre[a] && out@[b] == pre[b - 1]);
                assert(a < b - 1);
            }
        }
        assert forall|k: int| 0 <= k < jj implies listed_before(
            #[trigger] job_views(pre)[k],
            row@,
        ) by {
            assert(job_views(pre)[k] == pre[k]@);
        }
        if jj < pre.len() {
            assert(job_views(pre)[jj] == pre[jj]@);
        }
        lemma_insert_listed_at(job_views(pre), row@, jj);
        assert(job_views(out@) =~= job_views(pre).insert(jj, row@));
    }
}

/// Number of worker records serving `worker_type`.
pub open spec fn count_workers_matching(workers: Seq<WorkerModel>, worker_type: Seq<char>) -> nat
    decreases workers.len(),
{
    if workers.len() == 0 {
        0
    } else {
        count_workers_matching(workers.drop_last(), worker_type) + if workers.last().worker_type
            == worker_type {
            1nat
        } else {
            0nat
        }
    }
}

/// The listing order of workers: most recently seen first.
pub open spec fn worker_listed_before(a: WorkerModel, b: WorkerModel) -> bool {
    a.last_seen >= b.last_seen
}

/// Inserts `rec` into a listing-sorted vector of workers, keeping it
/// sorted; every element afterwards is an element from before or `rec`.
fn insert_worker_listed(out: &mut Vec<WorkerRow>, rec: WorkerRow)
    requires
        forall|a: int, b: int|
            0 <= a < b < old(out)@.len() ==> worker_listed_before(
                (#[trigger] old(out)@[a])@,
                (#[trigger] old(out)@[b])@,
            ),
    ensures
        final(out)@.len() == old(out)@.len() + 1,
        forall|a: int, b: int|
            0 <= a < b < final(out)@.len() ==> worker_listed_before(
                (#[trigger] final(out)@[a])@,
                (#[trigger] final(out)@[b])@,
            ),
        forall|k: int|
            0 <= k < final(out)@.len() ==> (#[trigger] final(out)@[k])@ == rec@ || exists|m: int|
                0 <= m < old(out)@.len() && (#[trigger] old(out)@[m])@ == final(out)@[k]@,
        worker_views(final(out)@) == insert_worker_listed_spec(worker_views(old(out)@), rec@),
{
    let mut j: usize = 0;
    while j < out.len() && out[j].last_seen >= rec.last_seen
        invariant
            0 <= j <= out@.len(),
            out@ == old(out)@,
            forall|k: int| 0 <= k < j ==> worker_listed_before((#[trigger] out@[k])@, rec@),
        decreases out@.len() - j,
    {
        j += 1;
    }
    let ghost jj = j as int;
    let ghost pre = out@;
    out.insert(j, rec);
    proof {
        assert forall|a: int, b: int| 0 <= a < b < out@.len() implies worker_listed_before(
            (#[trigger] out@[a])@,
            (#[trigger] out@[b])@,
        ) by {
            if b < jj {
                assert(out@[a] == pre[a] && out@[b] == pre[b]);
            } else if a > jj {
                assert(out@[a] == pre[a - 1] && out@[b] == pre[b - 1]);
            } else if a < jj && b == jj {
                assert(out@[a] == pre[a]);
            } else if a == jj {
                assert(out@[b] == pre[b - 1]);
            } else {
                assert(out@[a] == pre[a] && out@[b] == pre[b - 1]);
                assert(a < b - 1);
            }
        }
        assert forall|k: int| 0 <= k < jj implies worker_listed_before(
            #[trigger] worker_views(pre)[k],
            rec@,
        ) by {
            assert(worker_views(pre)[k] == pre[k]@);
        }
        if jj < pre.len() {
            assert(worker_views(pre)[jj] == pre[jj]@);
        }
        lemma_insert_worker_listed_at(worker_views(pre), rec@, jj);
        assert(worker_views(out@) =~= worker_views(pre).insert(jj, rec@));
    }
}

impl JobStore {
    /// One page of the worker records serving `worker_type`, most recently
    /// seen first, twenty to a page, pages counted from one. Every returned
    /// record is a record of the store for that type, and the page is full
    /// unless the matching records run out.
    pub fn list_workers(&self, worker_type: &String, page: usize) -> (r: Vec<WorkerRow>)
        requires
            page >= 1,
            page * 20 <= usize::MAX,
        ensures
            forall|k: int|
                0 <= k < r@.len() ==> (#[trigger] r@[k])@.worker_type == worker_type@ && exists|
                    m: int,
                |
                    0 <= m < self@.workers.len() && #[trigger] self@.workers[m] == r@[k]@,
            forall|a: int, b: int|
                0 <= a < b < r@.len() ==> worker_listed_before(
                    (#[trigger] r@[a])@,
                    (#[trigger] r@[b])@,
                ),
            r@.len() == ({
                let m = count_workers_matching(self@.workers, worker_type@);
                let start = (page - 1) * 20;
                if m <= start {
                    0nat
                } else if m - start >= 20 {
                    20nat
                } else {
                    (m - start) as nat
                }
            }),
            ({
                let all = worker_listing(self@.workers, worker_type@);
                let start = (page - 1) * 20;
                &&& (all.len() <= start ==> r@.len() == 0)
                &&& (all.len() > start ==> worker_views(r@) == all.subrange(
                    start as int,
                    if all.len() - start >= 20 {
                        start + 20
                    } else {
                        all.len() as int
                    },
                ))
            }),
    {
        let mut sorted: Vec<WorkerRow> = Vec::new();
        let mut i: usize = 0;
        while i < self.workers.len()
            invariant
                0 <= i <= self@.workers.len(),
                forall|k: int|
                    0 <= k < sorted@.len() ==> ((#[trigger] sorted@[k])@.worker_type
                        == worker_type@ && exists|m: int|
                        0 <= m < self@.workers.len() && #[trigger] self@.workers[m] == sorted@[
                            k
                        ]@),
                forall|a: int, b: int|
                    0 <= a < b < sorted@.len() ==> worker_listed_before(
                        (#[trigger] sorted@[a])@,
                        (#[trigger] sorted@[b])@,
                    ),
                sorted@.len() == count_workers_matching(
                    self@.workers.subrange(0, i as int),
                    worker_type@,
                ),
                worker_views(sorted@) == worker_listing(
                    self@.workers.subrange(0, i as int),
                    worker_type@,
                ),
            decreases self.workers.len() - i,
        {
            proof {
                let pref = self@.workers.subrange(0, i + 1);
                assert(pref.drop_last() =~= self@.workers.subrange(0, i as int));
                assert(pref.last() == self@.workers[i as int]);
                assert(self@.workers[i as int] == self.workers@[i as int]@);
            }
            if self.workers[i].worker_type.eq(worker_type) {
                let rec = self.workers[i].clone_row();
                insert_worker_listed(&mut sorted, rec);
                proof {
                    assert(exists|m: int|
                        0 <= m < self@.workers.len() && #[trigger] self@.workers[m]
                            == self@.workers[i as int]);
                }
            }
            i += 1;
        }
        proof {
            assert(self@.workers.subrange(0, i as int) =~= self@.workers);
        }
        let start = (page - 1) * 20;
        let mut out: Vec<WorkerRow> = Vec::new();
        let mut k = start;
        while k < sorted.len() && out.len() < 20
            invariant
                start <= k <= sorted.len() || (k == start && start > sorted.len()),
                out@.len() == (if k > start {
                    (k - start) as nat
                } else {
                    0nat
                }),
                out@.len() <= 20,
                forall|q: int|
                    0 <= q < out@.len() ==> (#[trigger] out@[q])@ == sorted@[start + q]@,
                forall|q: int|
                    0 <= q < sorted@.len() ==> ((#[trigger] sorted@[q])@.worker_type
                        == worker_type@ && exists|m: int|
                        0 <= m < self@.workers.len() && #[trigger] self@.workers[m] == sorted@[
                            q
                        ]@),
                forall|a: int, b: int|
                    0 <= a < b < sorted@.len() ==> worker_listed_before(
                        (#[trigger] sorted@[a])@,
                        (#[trigger] sorted@[b])@,
                    ),
                sorted@.len() == count_workers_matching(self@.workers, worker_type@),
                worker_views(sorted@) == worker_listing(self@.workers, worker_type@),
            decreases sorted.len() - k,
        {
            let rec = sorted[k].clone_row();
            out.push(rec);
            k += 1;
        }
        proof {
            let all = worker_listing(self@.workers, worker_type@);
            if all.len() > start {
                assert(worker_views(out@) =~= all.subrange(
                    start as int,
                    start + out@.len() as int,
                ));
            }
        }
        out
    }
}

} // verus!
