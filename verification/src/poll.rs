//! One tick of the polling stream: fetch up to `buffer_size` eligible
//! candidates, run the atomic claim protocol on each, and yield one item
//! per candidate — `Some(job)` on a successful claim, `None` otherwise.
//!
//! The surrounding runtime repeats this tick forever, sleeping the polling
//! interval in between; the stream never ends and a `None` item is a signal
//! to skip, not an error.

use vstd::prelude::*;

use crate::job::{JobRow, JobModel, JobStatus};
use crate::store::{claim_transition, JobStore};

verus! {

/// Number of rows eligible for `job_type` at `now`.
pub open spec fn count_eligible(jobs: Seq<JobModel>, job_type: Seq<char>, now: int) -> nat
    decreases jobs.len(),
{
    if jobs.len() == 0 {
        0
    } else {
        count_eligible(jobs.drop_last(), job_type, now) + if jobs.last().eligible(job_type, now) {
            1nat
        } else {
            0nat
        }
    }
}

/// What one polling tick yields for an eligible candidate row `j`: the
/// freshly claimed row for a Pending candidate; the row itself when the
/// read-your-writes select still matches because the worker already holds
/// it; nothing otherwise.
pub open spec fn candidate_item(
    j: JobModel,
    worker_id: Seq<char>,
    job_type: Seq<char>,
    now: int,
) -> Option<JobModel> {
    if j.status == JobStatus::Pending && j.lock_by is None {
        Some(claim_transition(j, worker_id, j.id, job_type, now))
    } else if j.lock_by == Some(worker_id) {
        Some(j)
    } else {
        None
    }
}

impl JobStore {
    /// True iff the row at `i` is eligible for `job_type` at `now`.
    fn is_eligible_at(&self, i: usize, job_type: &String, now: i64) -> (r: bool)
        requires
            i < self@.jobs.len(),
        ensures
            r == self@.jobs[i as int].eligible(job_type@, now as int),
    {
        self.jobs[i].job_type.eq(job_type) && self.jobs[i].run_at <= now && (self.jobs[i].status
            == JobStatus::Pending || (self.jobs[i].status == JobStatus::Failed
            && self.jobs[i].attempts < self.jobs[i].max_attempts))
    }

    /// One polling tick for `worker_id`: the first `buffer_size` eligible
    /// rows, in row order, each put through the atomic claim. Only eligible
    /// rows are ever touched; an eligible Pending candidate is claimed for
    /// `worker_id` and yielded as `Some` of the freshly Running row, and a
    /// candidate that cannot be claimed yields `None` unless the worker
    /// already holds it. Every item yielded as `Some` is a row of the store
    /// now locked by `worker_id`.
    pub fn poll_tick(
        &mut self,
        worker_id: &String,
        job_type: &String,
        now: i64,
        buffer_size: usize,
    ) -> (batch: Vec<Option<JobRow>>)
        requires
            old(self)@.wf(),
        ensures
            final(self)@.wf(),
            final(self)@.workers == old(self)@.workers,
            final(self)@.next_id == old(self)@.next_id,
            final(self)@.jobs.len() == old(self)@.jobs.len(),
            forall|i: int|
                0 <= i < old(self)@.jobs.len() ==> final(self)@.jobs[i] == (if (
                #[trigger] old(self)@.jobs[i]).eligible(job_type@, now as int) && count_eligible(
                    old(self)@.jobs.subrange(0, i + 1),
                    job_type@,
                    now as int,
                ) <= buffer_size {
                    claim_transition(
                        old(self)@.jobs[i],
                        worker_id@,
                        old(self)@.jobs[i].id,
                        job_type@,
                        now as int,
                    )
                } else {
                    old(self)@.jobs[i]
                }),
            batch@.len() == (if count_eligible(old(self)@.jobs, job_type@, now as int)
                <= buffer_size {
                count_eligible(old(self)@.jobs, job_type@, now as int)
            } else {
                buffer_size as nat
            }),
            forall|k: int|
                0 <= k < batch@.len() ==> match #[trigger] batch@[k] {
                    Some(row) => row@.lock_by == Some(worker_id@) && row@.job_type == job_type@
                        && exists|m: int|
                        0 <= m < final(self)@.jobs.len() && #[trigger] final(self)@.jobs[m]
                            == row@,
                    None => true,
                },
            forall|i: int|
                0 <= i < old(self)@.jobs.len() && (#[trigger] old(self)@.jobs[i]).eligible(
                    job_type@,
                    now as int,
                ) && count_eligible(old(self)@.jobs.subrange(0, i + 1), job_type@, now as int)
                    <= buffer_size ==> ({
                    let k = count_eligible(
                        old(self)@.jobs.subrange(0, i + 1),
                        job_type@,
                        now as int,
                    ) - 1;
                    &&& 0 <= k < batch@.len()
                    &&& match batch@[k] {
                        Some(row) => Some(row@) == candidate_item(
                            old(self)@.jobs[i],
                            worker_id@,
                            job_type@,
                            now as int,
                        ),
                        None => candidate_item(
                            old(self)@.jobs[i],
                            worker_id@,
                            job_type@,
                            now as int,
                        ) is None,
                    }
                }),
    {
        let ghost pre = old(self)@;
        let mut batch: Vec<Option<JobRow>> = Vec::new();
        let mut i: usize = 0;
        let mut cand: usize = 0;
        while i < self.jobs.len()
            invariant
                old(self)@.wf(),
                self@.wf(),
                pre == old(self)@,
                0 <= i <= self@.jobs.len(),
                cand <= buffer_size,
                self@.workers == pre.workers,
                self@.next_id == pre.next_id,
                self@.jobs.len() == pre.jobs.len(),
                cand as nat == (if count_eligible(
                    pre.jobs.subrange(0, i as int),
                    job_type@,
                    now as int,
                ) <= buffer_size {
                    count_eligible(pre.jobs.subrange(0, i as int), job_type@, now as int)
                } else {
                    buffer_size as nat
                }),
                forall|k: int| i <= k < pre.jobs.len() ==> self@.jobs[k] == pre.jobs[k],
                forall|k: int|
                    0 <= k < i ==> self@.jobs[k] == (if (#[trigger] pre.jobs[k]).eligible(
                        job_type@,
                        now as int,
                    ) && count_eligible(pre.jobs.subrange(0, k + 1), job_type@, now as int)
                        <= buffer_size {
                        claim_transition(
                            pre.jobs[k],
                            worker_id@,
                            pre.jobs[k].id,
                            job_type@,
                            now as int,
                        )
                    } else {
                        pre.jobs[k]
                    }),
                batch@.len() == cand,
                forall|k: int|
                    0 <= k < batch@.len() ==> match #[trigger] batch@[k] {
                        Some(row) => row@.lock_by == Some(worker_id@) && row@.job_type == job_type@
                            && exists|m: int|
                            0 <= m < self@.jobs.len() && #[trigger] self@.jobs[m] == row@,
                        None => true,
                    },
                forall|q: int|
                    0 <= q < i && (#[trigger] pre.jobs[q]).eligible(job_type@, now as int)
                        && count_eligible(pre.jobs.subrange(0, q + 1), job_type@, now as int)
                        <= buffer_size ==> ({
                        let k = count_eligible(
                            pre.jobs.subrange(0, q + 1),
                            job_type@,
                            now as int,
                        ) - 1;
                        &&& 0 <= k < batch@.len()
                        &&& match batch@[k] {
                            Some(row) => Some(row@) == candidate_item(
                                pre.jobs[q],
                                worker_id@,
                                job_type@,
                                now as int,
                            ),
                            None => candidate_item(
                                pre.jobs[q],
                                worker_id@,
                                job_type@,
                                now as int,
                            ) is None,
                        }
                    }),
            decreases self.jobs.len() - i,
        {
            proof {
                assert(pre.jobs.subrange(0, i + 1).drop_last() =~= pre.jobs.subrange(0, i as int));
                assert(pre.jobs.subrange(0, i + 1).last() == pre.jobs[i as int]);
                assert(self@.jobs[i as int] == pre.jobs[i as int]);
            }
            let elig = self.is_eligible_at(i, job_type, now);
            if elig && cand < buffer_size {
                let ghost before = self@;
                let id = self.jobs[i].id;
                let item = self.fetch_next(worker_id, id, job_type, now);
                proof {
                    assert forall|k: int| 0 <= k < pre.jobs.len() && k != i as int implies self@.jobs[k]
                        == before.jobs[k] by {
                        assert(before.jobs[k].id != before.jobs[i as int].id);
                        assert(self@.jobs[k] == claim_transition(
                            before.jobs[k],
                            worker_id@,
                            id as nat,
                            job_type@,
                            now as int,
                        ));
                    }
                    assert(self@.jobs[i as int] == claim_transition(
                        pre.jobs[i as int],
                        worker_id@,
                        pre.jobs[i as int].id,
                        job_type@,
                        now as int,
                    ));
                    let i0 = i as int;
                    let jm = pre.jobs[i0];
                    assert(jm.wf());
                    if jm.status == JobStatus::Pending {
                        assert(self@.jobs[i0].lock_by == Some(worker_id@));
                        assert(self@.jobs[i0].job_type == job_type@);
                        assert(self@.jobs[i0].id == id as nat);
                        match &item {
                            Some(row) => {
                                let m = choose|m: int|
                                    0 <= m < self@.jobs.len() && #[trigger] self@.jobs[m] == row@;
                                if m != i0 {
                                    assert(self@.jobs[m].id != self@.jobs[i0].id);
                                }
                                assert(row@ == self@.jobs[i0]);
                            },
                            None => {
                                assert(false);
                            },
                        }
                    } else {
                        assert(self@.jobs[i0] == jm);
                        if jm.lock_by == Some(worker_id@) {
                            match &item {
                                Some(row) => {
                                    let m = choose|m: int|
                                        0 <= m < self@.jobs.len() && #[trigger] self@.jobs[m]
                                            == row@;
                                    if m != i0 {
                                        assert(self@.jobs[m].id != self@.jobs[i0].id);
                                    }
                                    assert(row@ == jm);
                                },
                                None => {
                                    assert(false);
                                },
                            }
                        } else {
                            match &item {
                                Some(row) => {
                                    let m = choose|m: int|
                                        0 <= m < self@.jobs.len() && #[trigger] self@.jobs[m]
                                            == row@;
                                    if m != i0 {
                                        assert(self@.jobs[m].id != self@.jobs[i0].id);
                                    }
                                    assert(false);
                                },
                                None => {},
                            }
                        }
                    }
                }
                batch.push(item);
                cand += 1;
            }
            proof {
                let i0 = i as int;
                let c1 = count_eligible(pre.jobs.subrange(0, i0 + 1), job_type@, now as int);
                assert(cand as nat == (if c1 <= buffer_size as nat {
                    c1
                } else {
                    buffer_size as nat
                }));
                assert forall|k: int| 0 <= k < i0 + 1 implies self@.jobs[k] == (if (
                #[trigger] pre.jobs[k]).eligible(job_type@, now as int) && count_eligible(
                    pre.jobs.subrange(0, k + 1),
                    job_type@,
                    now as int,
                ) <= buffer_size {
                    claim_transition(pre.jobs[k], worker_id@, pre.jobs[k].id, job_type@, now as int)
                } else {
                    pre.jobs[k]
                }) by {}
                assert forall|q: int|
                    0 <= q < i0 + 1 && (#[trigger] pre.jobs[q]).eligible(job_type@, now as int)
                        && count_eligible(pre.jobs.subrange(0, q + 1), job_type@, now as int)
                        <= buffer_size implies ({
                    let k = count_eligible(pre.jobs.subrange(0, q + 1), job_type@, now as int) - 1;
                    &&& 0 <= k < batch@.len()
                    &&& match batch@[k] {
                        Some(row) => Some(row@) == candidate_item(
                            pre.jobs[q],
                            worker_id@,
                            job_type@,
                            now as int,
                        ),
                        None => candidate_item(
                            pre.jobs[q],
                            worker_id@,
                            job_type@,
                            now as int,
                        ) is None,
                    }
                }) by {}
            }
            i += 1;
        }
        proof {
            assert(pre.jobs.subrange(0, i as int) =~= pre.jobs);
        }
        batch
    }
}

} // verus!
