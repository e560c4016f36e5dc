//! The lifecycle laws: properties of the store's transitions that hold for
//! every sequence of operations, stated and proved once over the transition
//! functions that the operations' own contracts use.

use vstd::prelude::*;

use crate::job::{JobModel, JobStatus};
use crate::store::{
    abandon_transition, ack_transition, claim_transition, count_orphaned, count_retryable,
    enqueue_transition, kill_transition, lock_key, orphaned, orphans_before,
    reschedule_transition, retry_transition, retryable, retryable_before, taken_before, StoreModel,
};
use crate::worker::WorkerModel;

verus! {

/// A Running row names exactly one holder: two workers that both observe
/// the row as locked by themselves are the same worker.
pub proof fn lemma_single_holder(j: JobModel, w1: Seq<char>, w2: Seq<char>)
    requires
        j.status == JobStatus::Running,
        j.lock_by == Some(w1),
        j.lock_by == Some(w2),
    ensures
        w1 == w2,
{
}

/// The claim protocol is exclusive: claiming a Pending, unlocked row makes
/// it Running and locked by the claimant; once it is, a second claim — by
/// any worker, at any time — leaves the row exactly as it is, and a worker
/// other than the holder never observes the row as its own.
pub proof fn lemma_claim_exclusive(j: JobModel, w1: Seq<char>, w2: Seq<char>, t1: int, t2: int)
    requires
        j.status == JobStatus::Pending,
        j.lock_by is None,
    ensures
        ({
            let c = claim_transition(j, w1, j.id, j.job_type, t1);
            &&& c.status == JobStatus::Running
            &&& c.lock_by == Some(w1)
            &&& c.lock_at == Some(t1)
            &&& claim_transition(c, w2, c.id, c.job_type, t2) == c
            &&& w1 != w2 ==> c.lock_by != Some(w2)
        }),
{
}

/// Retry accounting never exceeds its bound: in a well-formed store, every
/// row has `attempts <= max_attempts`.
pub proof fn lemma_attempts_bounded(s: StoreModel, i: int)
    requires
        s.wf(),
        0 <= i < s.jobs.len(),
    ensures
        s.jobs[i].attempts <= s.jobs[i].max_attempts,
{
}

/// Every transition of the lifecycle preserves row well-formedness — in
/// particular `attempts <= max_attempts` survives every operation, with the
/// re-entry transition guarded by its own `attempts < max_attempts` test.
pub proof fn lemma_transitions_preserve_wf(
    j: JobModel,
    w: Seq<char>,
    id: nat,
    jt: Seq<char>,
    now: int,
    run_at: int,
)
    requires
        j.wf(),
    ensures
        ack_transition(j, w, id, now).wf(),
        kill_transition(j, w, id, now).wf(),
        retry_transition(j, w, id).wf(),
        reschedule_transition(j, id, run_at).wf(),
        claim_transition(j, w, id, jt, now).wf(),
        abandon_transition(j).wf(),
        j.attempts < j.max_attempts ==> enqueue_transition(j).wf(),
{
}

/// After `ack` on a row the worker holds, the row is Done and carries its
/// terminal timestamp.
pub proof fn lemma_ack_terminal(j: JobModel, w: Seq<char>, now: int)
    requires
        j.lock_by == Some(w),
    ensures
        ack_transition(j, w, j.id, now).status == JobStatus::Done,
        ack_transition(j, w, j.id, now).done_at == Some(now),
{
}

/// After `kill` on a row the worker holds, the row is Killed and carries
/// its terminal timestamp.
pub proof fn lemma_kill_terminal(j: JobModel, w: Seq<char>, now: int)
    requires
        j.lock_by == Some(w),
    ensures
        kill_transition(j, w, j.id, now).status == JobStatus::Killed,
        kill_transition(j, w, j.id, now).done_at == Some(now),
{
}

/// After `retry` on a row the worker holds, the row is Pending with both
/// lock fields cleared.
pub proof fn lemma_retry_clears_lock(j: JobModel, w: Seq<char>)
    requires
        j.lock_by == Some(w),
    ensures
        retry_transition(j, w, j.id).status == JobStatus::Pending,
        retry_transition(j, w, j.id).lock_by is None,
        retry_transition(j, w, j.id).lock_at is None,
{
}

/// After `reschedule` with wait `wait`, the row is Failed, will not run
/// before `now + wait`, and has both lock fields cleared.
pub proof fn lemma_reschedule_backs_off(j: JobModel, wait: int, now: int)
    ensures
        ({
            let r = reschedule_transition(j, j.id, now + wait);
            &&& r.status == JobStatus::Failed
            &&& r.run_at >= now + wait
            &&& r.lock_by is None
            &&& r.lock_at is None
        }),
{
}

/// The postcondition of `JobStore::reenqueue_orphaned`, for use as the
/// hypothesis of the reap laws.
pub open spec fn reap_outcome(pre: StoreModel, post: StoreModel, count: nat, deadline: int) -> bool {
    forall|k: int|
        0 <= k < pre.jobs.len() ==> post.jobs[k] == (if orphaned(
            pre.jobs[k],
            pre.workers,
            deadline,
        ) && orphans_before(pre.jobs, pre.workers, deadline, lock_key(pre.jobs[k]), k) < count {
            abandon_transition(pre.jobs[k])
        } else {
            pre.jobs[k]
        })
}

/// Orphan reaping moves only orphans: any row the reap changed was Running
/// and held by a worker whose `last_seen` lies before the deadline
/// `now - worker_timeout`.
pub proof fn lemma_reap_only_moves_orphans(
    pre: StoreModel,
    post: StoreModel,
    count: nat,
    deadline: int,
    i: int,
)
    requires
        reap_outcome(pre, post, count, deadline),
        0 <= i < pre.jobs.len(),
        post.jobs[i] != pre.jobs[i],
    ensures
        orphaned(pre.jobs[i], pre.workers, deadline),
{
}

/// A selection rank never exceeds the total number of orphans.
proof fn lemma_orphans_before_le(
    jobs: Seq<JobModel>,
    workers: Seq<WorkerModel>,
    deadline: int,
    key: int,
    idx: int,
)
    ensures
        orphans_before(jobs, workers, deadline, key, idx) <= count_orphaned(
            jobs,
            workers,
            deadline,
        ),
    decreases jobs.len(),
{
    if jobs.len() > 0 {
        lemma_orphans_before_le(jobs.drop_last(), workers, deadline, key, idx);
    }
}

/// An orphan's selection rank lies strictly below the total number of
/// orphans: it never counts itself.
proof fn lemma_orphan_rank_bounded(
    jobs: Seq<JobModel>,
    workers: Seq<WorkerModel>,
    deadline: int,
    idx: int,
)
    requires
        0 <= idx < jobs.len(),
        orphaned(jobs[idx], workers, deadline),
    ensures
        orphans_before(jobs, workers, deadline, lock_key(jobs[idx]), idx) < count_orphaned(
            jobs,
            workers,
            deadline,
        ),
    decreases jobs.len(),
{
    if idx == jobs.len() - 1 {
        lemma_orphans_before_le(jobs.drop_last(), workers, deadline, lock_key(jobs[idx]), idx);
    } else {
        assert(jobs.drop_last()[idx] == jobs[idx]);
        lemma_orphan_rank_bounded(jobs.drop_last(), workers, deadline, idx);
    }
}

/// When the reap's budget covers every orphan, every orphan moves: it is
/// reset to Pending, unlocked, and marked abandoned.
pub proof fn lemma_reap_complete(
    pre: StoreModel,
    post: StoreModel,
    count: nat,
    deadline: int,
    i: int,
)
    requires
        reap_outcome(pre, post, count, deadline),
        count_orphaned(pre.jobs, pre.workers, deadline) <= count,
        0 <= i < pre.jobs.len(),
        orphaned(pre.jobs[i], pre.workers, deadline),
    ensures
        post.jobs[i] == abandon_transition(pre.jobs[i]),
{
    lemma_orphan_rank_bounded(pre.jobs, pre.workers, deadline, i);
}

/// The postcondition of `JobStore::enqueue_scheduled`, for use as the
/// hypothesis of the re-entry laws.
pub open spec fn enqueue_outcome(pre: StoreModel, post: StoreModel, count: nat) -> bool {
    forall|k: int|
        0 <= k < pre.jobs.len() ==> post.jobs[k] == (if retryable(pre.jobs[k])
            && retryable_before(pre.jobs, lock_key(pre.jobs[k]), k) < count {
            enqueue_transition(pre.jobs[k])
        } else {
            pre.jobs[k]
        })
}

/// Bulk re-entry moves only retryable rows: any row it changed was Failed
/// with `attempts < max_attempts`.
pub proof fn lemma_enqueue_only_moves_retryable(
    pre: StoreModel,
    post: StoreModel,
    count: nat,
    i: int,
)
    requires
        enqueue_outcome(pre, post, count),
        0 <= i < pre.jobs.len(),
        post.jobs[i] != pre.jobs[i],
    ensures
        retryable(pre.jobs[i]),
{
}

/// A selection rank never exceeds the total number of retryable rows.
proof fn lemma_retryable_before_le(jobs: Seq<JobModel>, key: int, idx: int)
    ensures
        retryable_before(jobs, key, idx) <= count_retryable(jobs),
    decreases jobs.len(),
{
    if jobs.len() > 0 {
        lemma_retryable_before_le(jobs.drop_last(), key, idx);
    }
}

/// A retryable row's selection rank lies strictly below the total number
/// of retryable rows: it never counts itself.
proof fn lemma_retryable_rank_bounded(jobs: Seq<JobModel>, idx: int)
    requires
        0 <= idx < jobs.len(),
        retryable(jobs[idx]),
    ensures
        retryable_before(jobs, lock_key(jobs[idx]), idx) < count_retryable(jobs),
    decreases jobs.len(),
{
    if idx == jobs.len() - 1 {
        lemma_retryable_before_le(jobs.drop_last(), lock_key(jobs[idx]), idx);
    } else {
        assert(jobs.drop_last()[idx] == jobs[idx]);
        lemma_retryable_rank_bounded(jobs.drop_last(), idx);
    }
}

/// When the budget covers every retryable row, every retryable row
/// re-enters the queue, with its attempt counted.
pub proof fn lemma_enqueue_complete(pre: StoreModel, post: StoreModel, count: nat, i: int)
    requires
        enqueue_outcome(pre, post, count),
        count_retryable(pre.jobs) <= count,
        0 <= i < pre.jobs.len(),
        retryable(pre.jobs[i]),
    ensures
        post.jobs[i] == enqueue_transition(pre.jobs[i]),
{
    lemma_retryable_rank_bounded(pre.jobs, i);
}

/// Rank follows the selection order: an orphan taken before a given place
/// has a strictly smaller rank than that place.
proof fn lemma_rank_monotone_le(
    jobs: Seq<JobModel>,
    workers: Seq<WorkerModel>,
    deadline: int,
    kb: int,
    b: int,
    key: int,
    idx: int,
)
    requires
        kb < key || (kb == key && b < idx),
    ensures
        orphans_before(jobs, workers, deadline, kb, b) <= orphans_before(
            jobs,
            workers,
            deadline,
            key,
            idx,
        ),
    decreases jobs.len(),
{
    if jobs.len() > 0 {
        lemma_rank_monotone_le(jobs.drop_last(), workers, deadline, kb, b, key, idx);
    }
}

/// Rank follows the selection order, strictly: an orphan taken before a
/// given place has a smaller rank than that place has.
proof fn lemma_rank_monotone(
    jobs: Seq<JobModel>,
    workers: Seq<WorkerModel>,
    deadline: int,
    b: int,
    key: int,
    idx: int,
)
    requires
        0 <= b < jobs.len(),
        orphaned(jobs[b], workers, deadline),
        taken_before(jobs[b], b, key, idx),
    ensures
        orphans_before(jobs, workers, deadline, lock_key(jobs[b]), b) < orphans_before(
            jobs,
            workers,
            deadline,
            key,
            idx,
        ),
    decreases jobs.len(),
{
    if b == jobs.len() - 1 {
        lemma_rank_monotone_le(
            jobs.drop_last(),
            workers,
            deadline,
            lock_key(jobs[b]),
            b,
            key,
            idx,
        );
    } else {
        assert(jobs.drop_last()[b] == jobs[b]);
        lemma_rank_monotone(jobs.drop_last(), workers, deadline, b, key, idx);
    }
}

/// The reap takes the oldest locks first: a row it moved is taken — by
/// `lock_at` ascending, ties by row order — before every orphan it left
/// untouched.
pub proof fn lemma_reap_oldest_first(
    pre: StoreModel,
    post: StoreModel,
    count: nat,
    deadline: int,
    i: int,
    j: int,
)
    requires
        reap_outcome(pre, post, count, deadline),
        0 <= i < pre.jobs.len(),
        0 <= j < pre.jobs.len(),
        post.jobs[i] != pre.jobs[i],
        post.jobs[j] == pre.jobs[j],
        orphaned(pre.jobs[j], pre.workers, deadline),
    ensures
        taken_before(pre.jobs[i], i, lock_key(pre.jobs[j]), j),
{
    assert(i != j);
    if !taken_before(pre.jobs[i], i, lock_key(pre.jobs[j]), j) {
        assert(taken_before(pre.jobs[j], j, lock_key(pre.jobs[i]), i));
        lemma_rank_monotone(pre.jobs, pre.workers, deadline, j, lock_key(pre.jobs[i]), i);
        assert(false);
    }
}

} // verus!
