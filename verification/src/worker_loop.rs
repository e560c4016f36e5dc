//! The worker loop: one worker's heartbeat cadence and dispatch step.
//!
//! The surrounding runtime runs two cooperative tasks per worker — one that
//! sleeps and heartbeats, one that waits on the wake signal and dispatches.
//! Between its suspensions every decision is a function here: whether a
//! heartbeat is due, what the heartbeat writes, and what one dispatch step
//! claims and delivers.

use vstd::prelude::*;

use crate::job::JobRow;
use crate::poll::{candidate_item, count_eligible};
use crate::store::{claim_transition, JobStore};
use crate::worker::WorkerModel;

verus! {

/// Polling and liveness configuration of one worker.
pub struct WorkerConfig {
    /// How long dispatch sleeps between polling ticks, in milliseconds.
    pub poll_interval_ms: u64,
    /// How many candidates one tick fetches.
    pub buffer_size: usize,
    /// Seconds between heartbeats.
    pub heartbeat_interval_secs: u64,
    /// Seconds of heartbeat silence after which a worker counts as dead.
    pub worker_timeout_secs: u64,
}

impl WorkerConfig {
    /// The reference defaults: poll every 50 ms with a buffer of 10,
    /// heartbeat every 30 s, reap after 300 s of silence.
    pub fn reference_defaults() -> (c: WorkerConfig)
        ensures
            c.poll_interval_ms == 50,
            c.buffer_size == 10,
            c.heartbeat_interval_secs == 30,
            c.worker_timeout_secs == 300,
    {
        WorkerConfig {
            poll_interval_ms: 50,
            buffer_size: 10,
            heartbeat_interval_secs: 30,
            worker_timeout_secs: 300,
        }
    }
}

/// A heartbeat is due on the first tick and then whenever a full interval
/// has passed since the last one.
pub open spec fn heartbeat_due_spec(last: Option<int>, now: int, interval: int) -> bool {
    match last {
        None => true,
        Some(t) => now - t >= interval,
    }
}

/// One worker's loop state.
pub struct WorkerLoop {
    pub worker_id: String,
    /// The job type this worker serves.
    pub job_type: String,
    pub config: WorkerConfig,
    /// When the last heartbeat was written, if one was.
    pub last_heartbeat: Option<i64>,
}

impl WorkerLoop {
    /// A fresh loop: no heartbeat written yet.
    pub fn new(worker_id: String, job_type: String, config: WorkerConfig) -> (w: WorkerLoop)
        ensures
            w.worker_id@ == worker_id@,
            w.job_type@ == job_type@,
            w.config == config,
            w.last_heartbeat is None,
    {
        WorkerLoop { worker_id, job_type, config, last_heartbeat: None }
    }

    /// Whether the heartbeat task should write now.
    pub fn heartbeat_due(&self, now: i64) -> (r: bool)
        ensures
            r == heartbeat_due_spec(
                match self.last_heartbeat {
                    Some(t) => Some(t as int),
                    None => None,
                },
                now as int,
                self.config.heartbeat_interval_secs as int,
            ),
    {
        match self.last_heartbeat {
            None => true,
            Some(t) => (now as i128) - (t as i128) >= (self.config.heartbeat_interval_secs as i128),
        }
    }

    /// The heartbeat task's tick: if a heartbeat is due, upsert this
    /// worker's liveness record with `last_seen = now` and remember the
    /// write; otherwise touch nothing.
    pub fn heartbeat_step(&mut self, store: &mut JobStore, storage_name: String, layers: String, now: i64)
        requires
            old(store)@.wf(),
        ensures
            final(store)@.wf(),
            final(store)@.jobs == old(store)@.jobs,
            final(store)@.next_id == old(store)@.next_id,
            final(self).worker_id@ == old(self).worker_id@,
            final(self).job_type@ == old(self).job_type@,
            final(self).config == old(self).config,
            !heartbeat_due_spec(
                match old(self).last_heartbeat {
                    Some(t) => Some(t as int),
                    None => None,
                },
                now as int,
                old(self).config.heartbeat_interval_secs as int,
            ) ==> final(store)@ == old(store)@ && final(self).last_heartbeat == old(
                self,
            ).last_heartbeat,
            heartbeat_due_spec(
                match old(self).last_heartbeat {
                    Some(t) => Some(t as int),
                    None => None,
                },
                now as int,
                old(self).config.heartbeat_interval_secs as int,
            ) ==> final(self).last_heartbeat == Some(now) && ((exists|i: int|
                0 <= i < old(store)@.workers.len() && (#[trigger] old(store)@.workers[i]).id == old(
                    self,
                ).worker_id@) ==> final(store)@.workers.len() == old(store)@.workers.len()
                && forall|i: int|
                0 <= i < old(store)@.workers.len() ==> final(store)@.workers[i] == (if old(
                    store,
                )@.workers[i].id == old(self).worker_id@ {
                    WorkerModel { last_seen: now as int, ..old(store)@.workers[i] }
                } else {
                    old(store)@.workers[i]
                })) && (!(exists|i: int|
                0 <= i < old(store)@.workers.len() && (#[trigger] old(store)@.workers[i]).id == old(
                    self,
                ).worker_id@) ==> final(store)@.workers == old(store)@.workers.push(
                WorkerModel {
                    id: old(self).worker_id@,
                    worker_type: old(self).job_type@,
                    storage_name: storage_name@,
                    layers: layers@,
                    last_seen: now as int,
                },
            )),
    {
        if self.heartbeat_due(now) {
            let worker_type = self.job_type.clone();
            store.keep_alive_at(&self.worker_id, worker_type, storage_name, layers, now);
            self.last_heartbeat = Some(now);
        }
    }

    /// The dispatch task's step, taken when the wake signal fires: advance
    /// the polling stream one tick for this worker and hand back what the
    /// tick yielded — one item per candidate, the freshly claimed job or a
    /// skip signal — for delivery through the wake slots. The store moves
    /// exactly as one polling tick moves it, and an in-buffer Pending
    /// candidate is always yielded as `Some` of its claimed Running row.
    pub fn dispatch_step(&mut self, store: &mut JobStore, now: i64) -> (batch: Vec<Option<JobRow>>)
        requires
            old(store)@.wf(),
        ensures
            final(store)@.wf(),
            *final(self) == *old(self),
            final(store)@.workers == old(store)@.workers,
            final(store)@.next_id == old(store)@.next_id,
            final(store)@.jobs.len() == old(store)@.jobs.len(),
            forall|i: int|
                0 <= i < old(store)@.jobs.len() ==> final(store)@.jobs[i] == (if (
                #[trigger] old(store)@.jobs[i]).eligible(old(self).job_type@, now as int)
                    && count_eligible(
                    old(store)@.jobs.subrange(0, i + 1),
                    old(self).job_type@,
                    now as int,
                ) <= old(self).config.buffer_size {
                    claim_transition(
                        old(store)@.jobs[i],
                        old(self).worker_id@,
                        old(store)@.jobs[i].id,
                        old(self).job_type@,
                        now as int,
                    )
                } else {
                    old(store)@.jobs[i]
                }),
            batch@.len() == (if count_eligible(old(store)@.jobs, old(self).job_type@, now as int)
                <= old(self).config.buffer_size {
                count_eligible(old(store)@.jobs, old(self).job_type@, now as int)
            } else {
                old(self).config.buffer_size as nat
            }),
            forall|k: int|
                0 <= k < batch@.len() ==> match #[trigger] batch@[k] {
                    Some(row) => row@.lock_by == Some(old(self).worker_id@) && row@.job_type == old(
                        self,
                    ).job_type@ && exists|m: int|
                        0 <= m < final(store)@.jobs.len() && #[trigger] final(store)@.jobs[m]
                            == row@,
                    None => true,
                },
            forall|i: int|
                0 <= i < old(store)@.jobs.len() && (#[trigger] old(store)@.jobs[i]).eligible(
                    old(self).job_type@,
                    now as int,
                ) && count_eligible(
                    old(store)@.jobs.subrange(0, i + 1),
                    old(self).job_type@,
                    now as int,
                ) <= old(self).config.buffer_size ==> ({
                    let k = count_eligible(
                        old(store)@.jobs.subrange(0, i + 1),
                        old(self).job_type@,
                        now as int,
                    ) - 1;
                    &&& 0 <= k < batch@.len()
                    &&& match batch@[k] {
                        Some(row) => Some(row@) == candidate_item(
                            old(store)@.jobs[i],
                            old(self).worker_id@,
                            old(self).job_type@,
                            now as int,
                        ),
                        None => candidate_item(
                            old(store)@.jobs[i],
                            old(self).worker_id@,
                            old(self).job_type@,
                            now as int,
                        ) is None,
                    }
                }),
    {
        store.poll_tick(&self.worker_id, &self.job_type, now, self.config.buffer_size)
    }
}

} // verus!
