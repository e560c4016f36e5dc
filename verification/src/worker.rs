//! The worker liveness row: one record per worker id, refreshed by
//! heartbeats and consulted by the orphan reaper.

use vstd::prelude::*;

verus! {

/// Mathematical model of a worker record.
pub ghost struct WorkerModel {
    pub id: Seq<char>,
    pub worker_type: Seq<char>,
    pub storage_name: Seq<char>,
    pub layers: Seq<char>,
    pub last_seen: int,
}

/// A worker liveness record. `last_seen` is Unix epoch seconds.
#[derive(Debug)]
pub struct WorkerRow {
    pub id: String,
    /// The job type this worker serves.
    pub worker_type: String,
    /// Informational: which storage backend registered the worker.
    pub storage_name: String,
    /// Informational: middleware description.
    pub layers: String,
    pub last_seen: i64,
}

impl View for WorkerRow {
    type V = WorkerModel;

    open spec fn view(&self) -> WorkerModel {
        WorkerModel {
            id: self.id@,
            worker_type: self.worker_type@,
            storage_name: self.storage_name@,
            layers: self.layers@,
            last_seen: self.last_seen as int,
        }
    }
}

impl WorkerRow {
    /// Field-by-field copy; the result denotes the same record.
    pub fn clone_row(&self) -> (r: WorkerRow)
        ensures
            r@ == self@,
    {
        WorkerRow {
            id: self.id.clone(),
            worker_type: self.worker_type.clone(),
            storage_name: self.storage_name.clone(),
            layers: self.layers.clone(),
            last_seen: self.last_seen,
        }
    }
}

} // verus!
