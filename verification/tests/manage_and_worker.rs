//! The management projection and the worker loop observed on concrete
//! stores.

use jobq::codec::{Email, JsonCodec};
use jobq::job::JobStatus;
use jobq::store::JobStore;
use jobq::worker_loop::{WorkerConfig, WorkerLoop};

const NOW: i64 = 1_000_000;
const JOB_TYPE: &str = "email";

fn push_one(store: &mut JobStore, run_at: i64) -> u64 {
    let e = Email {
        subject: "s".to_string(),
        to: "t@example".to_string(),
        text: "x".to_string(),
    };
    store.schedule(JsonCodec::encode(&e), JOB_TYPE.to_string(), run_at)
}

#[test]
fn counts_by_status_and_type() {
    let mut store = JobStore::new();
    push_one(&mut store, NOW);
    push_one(&mut store, NOW);
    let id = push_one(&mut store, NOW);
    // One of them gets claimed and acked.
    let w = "w".to_string();
    store.fetch_next(&w, id, &JOB_TYPE.to_string(), NOW);
    store.ack(&w, id, NOW);
    // A row of another type is not counted.
    store.push("{}".to_string(), "other".to_string(), NOW);

    let c = store.counts(&JOB_TYPE.to_string());
    assert_eq!(c.pending, 2);
    assert_eq!(c.done, 1);
    assert_eq!(c.running, 0);
    assert_eq!(c.retry, 0);
    assert_eq!(c.failed, 0);
    assert_eq!(c.killed, 0);
    assert_eq!(store.len(), 3);
    assert!(!store.is_empty());
}

#[test]
fn list_jobs_pages_newest_first() {
    let mut store = JobStore::new();
    let mut ids = Vec::new();
    for k in 0..12 {
        ids.push(push_one(&mut store, NOW + k));
    }
    let page1 = store.list_jobs(JobStatus::Pending, &JOB_TYPE.to_string(), 1);
    assert_eq!(page1.len(), 10);
    // Newest first: descending run_at among rows without done_at.
    assert_eq!(page1[0].run_at, NOW + 11);
    assert_eq!(page1[9].run_at, NOW + 2);
    let page2 = store.list_jobs(JobStatus::Pending, &JOB_TYPE.to_string(), 2);
    assert_eq!(page2.len(), 2);
    assert_eq!(page2[0].run_at, NOW + 1);
    assert_eq!(page2[1].run_at, NOW);
    let page3 = store.list_jobs(JobStatus::Pending, &JOB_TYPE.to_string(), 3);
    assert_eq!(page3.len(), 0);
}

#[test]
fn list_workers_most_recent_first() {
    let mut store = JobStore::new();
    for k in 0..3i64 {
        let id = format!("w{}", k);
        store.keep_alive_at(&id, JOB_TYPE.to_string(), "JobStore".to_string(), "Svc".to_string(), NOW + k);
    }
    store.keep_alive_at(
        &"other".to_string(),
        "other-type".to_string(),
        "JobStore".to_string(),
        "Svc".to_string(),
        NOW + 100,
    );
    let ws = store.list_workers(&JOB_TYPE.to_string(), 1);
    assert_eq!(ws.len(), 3);
    assert_eq!(ws[0].id, "w2");
    assert_eq!(ws[1].id, "w1");
    assert_eq!(ws[2].id, "w0");
}

#[test]
fn heartbeat_upsert_updates_last_seen_only() {
    let mut store = JobStore::new();
    let w = "w".to_string();
    store.keep_alive_at(&w, JOB_TYPE.to_string(), "JobStore".to_string(), "SvcA".to_string(), NOW);
    store.keep_alive_at(&w, "ignored".to_string(), "ignored".to_string(), "SvcB".to_string(), NOW + 30);
    let ws = store.list_workers(&JOB_TYPE.to_string(), 1);
    assert_eq!(ws.len(), 1);
    assert_eq!(ws[0].last_seen, NOW + 30);
    assert_eq!(ws[0].layers, "SvcA");
}

#[test]
fn worker_loop_heartbeats_on_cadence() {
    let mut store = JobStore::new();
    let config = WorkerConfig::reference_defaults();
    let mut wl = WorkerLoop::new("w".to_string(), JOB_TYPE.to_string(), config);

    assert!(wl.heartbeat_due(NOW));
    wl.heartbeat_step(&mut store, "JobStore".to_string(), "Svc".to_string(), NOW);
    let ws = store.list_workers(&JOB_TYPE.to_string(), 1);
    assert_eq!(ws.len(), 1);
    assert_eq!(ws[0].last_seen, NOW);

    // Too soon: nothing written.
    assert!(!wl.heartbeat_due(NOW + 10));
    wl.heartbeat_step(&mut store, "JobStore".to_string(), "Svc".to_string(), NOW + 10);
    let ws = store.list_workers(&JOB_TYPE.to_string(), 1);
    assert_eq!(ws[0].last_seen, NOW);

    // A full interval later: refreshed.
    assert!(wl.heartbeat_due(NOW + 30));
    wl.heartbeat_step(&mut store, "JobStore".to_string(), "Svc".to_string(), NOW + 30);
    let ws = store.list_workers(&JOB_TYPE.to_string(), 1);
    assert_eq!(ws[0].last_seen, NOW + 30);
}

#[test]
fn worker_loop_dispatch_claims_through_the_buffer() {
    let mut store = JobStore::new();
    for _ in 0..3 {
        push_one(&mut store, NOW);
    }
    let config = WorkerConfig::reference_defaults();
    let mut wl = WorkerLoop::new("w".to_string(), JOB_TYPE.to_string(), config);
    let batch = wl.dispatch_step(&mut store, NOW);
    assert_eq!(batch.len(), 3);
    for item in batch {
        let job = item.expect("a Pending candidate is always claimed");
        assert_eq!(job.status, JobStatus::Running);
        assert_eq!(job.lock_by, Some("w".to_string()));
    }
    // Everything is Running now; another step finds no candidate.
    let batch = wl.dispatch_step(&mut store, NOW);
    assert_eq!(batch.len(), 0);
}
