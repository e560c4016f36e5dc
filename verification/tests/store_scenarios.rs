//! End-to-end scenarios over the store: push, consume, ack, kill, and
//! orphan reaping, with the worker registered at various liveness ages.

use jobq::codec::{decode_payload, Email, JsonCodec};
use jobq::error::StorageError;
use jobq::job::{JobRow, JobStatus};
use jobq::store::JobStore;

const NOW: i64 = 1_000_000;
const JOB_TYPE: &str = "email";

fn example_email() -> Email {
    Email {
        subject: "Test Subject".to_string(),
        to: "example@postgres".to_string(),
        text: "Some Text".to_string(),
    }
}

fn push_email(store: &mut JobStore, email: Email) -> u64 {
    let payload = JsonCodec::encode(&email);
    store.push(payload, JOB_TYPE.to_string(), NOW)
}

fn register_worker_at(store: &mut JobStore, last_seen: i64) -> String {
    let worker_id = "test-worker".to_string();
    store.keep_alive_at(
        &worker_id,
        JOB_TYPE.to_string(),
        "JobStore".to_string(),
        "DummyService".to_string(),
        last_seen,
    );
    worker_id
}

fn register_worker(store: &mut JobStore) -> String {
    register_worker_at(store, NOW)
}

fn consume_one(store: &mut JobStore, worker_id: &String) -> JobRow {
    let batch = store.poll_tick(worker_id, &JOB_TYPE.to_string(), NOW, 1);
    batch
        .into_iter()
        .next()
        .expect("stream is empty")
        .expect("no job is pending")
}

fn get_job(store: &mut JobStore, job_id: u64) -> JobRow {
    store.fetch_by_id(job_id).expect("no job found by id")
}

#[test]
fn test_inmemory_sqlite_worker() {
    let mut sqlite = JobStore::new();
    let email = Email {
        subject: "Test Subject".to_string(),
        to: "example@sqlite".to_string(),
        text: "Some Text".to_string(),
    };
    push_email(&mut sqlite, email);
    let len = sqlite.len();
    assert_eq!(len, 1);
}

#[test]
fn test_consume_last_pushed_job() {
    let mut storage = JobStore::new();
    push_email(&mut storage, example_email());

    let worker_id = register_worker(&mut storage);

    let job = consume_one(&mut storage, &worker_id);

    assert_eq!(job.status, JobStatus::Running);
    assert_eq!(job.lock_by, Some(worker_id.clone()));
    assert!(job.lock_at.is_some());
}

#[test]
fn test_acknowledge_job() {
    let mut storage = JobStore::new();
    push_email(&mut storage, example_email());

    let worker_id = register_worker(&mut storage);

    let job = consume_one(&mut storage, &worker_id);
    let job_id = job.id;

    storage.ack(&worker_id, job_id, NOW);

    let job = get_job(&mut storage, job_id);
    assert_eq!(job.status, JobStatus::Done);
    assert!(job.done_at.is_some());
}

#[test]
fn test_kill_job() {
    let mut storage = JobStore::new();

    push_email(&mut storage, example_email());

    let worker_id = register_worker(&mut storage);

    let job = consume_one(&mut storage, &worker_id);
    let job_id = job.id;

    storage.kill(&worker_id, job_id, NOW);

    let job = get_job(&mut storage, job_id);
    assert_eq!(job.status, JobStatus::Killed);
    assert!(job.done_at.is_some());
}

#[test]
fn test_heartbeat_renqueueorphaned_pulse_last_seen_6min() {
    let mut storage = JobStore::new();

    push_email(&mut storage, example_email());

    let six_minutes_ago = NOW - 6 * 60;
    let worker_id = register_worker_at(&mut storage, six_minutes_ago);

    let job = consume_one(&mut storage, &worker_id);
    let result = storage.reenqueue_orphaned(5, 300, NOW);
    assert!(result);

    let job_id = job.id;
    let job = get_job(&mut storage, job_id);

    assert_eq!(job.status, JobStatus::Pending);
    assert!(job.done_at.is_none());
    assert!(job.lock_by.is_none());
    assert!(job.lock_at.is_none());
    assert_eq!(job.last_error, Some("Job was abandoned".to_string()));
}

#[test]
fn test_heartbeat_renqueueorphaned_pulse_last_seen_4min() {
    let mut storage = JobStore::new();

    push_email(&mut storage, example_email());

    let four_minutes_ago = NOW - 4 * 60;
    let worker_id = register_worker_at(&mut storage, four_minutes_ago);

    let job = consume_one(&mut storage, &worker_id);
    let result = storage.reenqueue_orphaned(5, 300, NOW);
    assert!(result);

    let job_id = job.id;
    let job = get_job(&mut storage, job_id);

    assert_eq!(job.status, JobStatus::Running);
    assert_eq!(job.lock_by, Some(worker_id));
}

#[test]
fn test_contended_claim_exactly_one_winner() {
    let mut storage = JobStore::new();
    push_email(&mut storage, example_email());

    let w1 = "worker-one".to_string();
    let w2 = "worker-two".to_string();
    storage.keep_alive_at(&w1, JOB_TYPE.to_string(), "JobStore".to_string(), "Svc".to_string(), NOW);
    storage.keep_alive_at(&w2, JOB_TYPE.to_string(), "JobStore".to_string(), "Svc".to_string(), NOW);

    let jt = JOB_TYPE.to_string();
    let batch1 = storage.poll_tick(&w1, &jt, NOW, 10);
    let batch2 = storage.poll_tick(&w2, &jt, NOW, 10);

    assert_eq!(batch1.len(), 1);
    let won = batch1.into_iter().next().unwrap();
    let job = won.expect("the first worker should claim the job");
    assert_eq!(job.status, JobStatus::Running);
    assert_eq!(job.lock_by, Some(w1.clone()));

    // The row is Running now, so the second worker's tick finds nothing
    // eligible at all; a direct claim attempt on the row also hands back
    // nothing and moves nothing.
    assert_eq!(batch2.len(), 0);
    let direct = storage.fetch_next(&w2, job.id, &jt, NOW);
    assert!(direct.is_none());
    let row = storage.fetch_by_id(job.id).unwrap();
    assert_eq!(row.status, JobStatus::Running);
    assert_eq!(row.lock_by, Some(w1));
}

#[test]
fn test_ack_requires_holding_worker() {
    let mut storage = JobStore::new();
    let id = push_email(&mut storage, example_email());
    let worker_id = register_worker(&mut storage);
    consume_one(&mut storage, &worker_id);

    let other = "other-worker".to_string();
    storage.ack(&other, id, NOW);
    let job = get_job(&mut storage, id);
    assert_eq!(job.status, JobStatus::Running);
    assert!(job.done_at.is_none());
}

#[test]
fn test_retry_clears_lock() {
    let mut storage = JobStore::new();
    let id = push_email(&mut storage, example_email());
    let worker_id = register_worker(&mut storage);
    consume_one(&mut storage, &worker_id);

    storage.retry(&worker_id, id);
    let job = get_job(&mut storage, id);
    assert_eq!(job.status, JobStatus::Pending);
    assert!(job.lock_by.is_none());
    assert!(job.lock_at.is_none());
}

#[test]
fn test_reschedule_backs_off() {
    let mut storage = JobStore::new();
    let id = push_email(&mut storage, example_email());
    let worker_id = register_worker(&mut storage);
    consume_one(&mut storage, &worker_id);

    storage.reschedule(id, 90, NOW).expect("reschedule failed");
    let job = get_job(&mut storage, id);
    assert_eq!(job.status, JobStatus::Failed);
    assert_eq!(job.run_at, NOW + 90);
    assert!(job.lock_by.is_none());
    assert!(job.lock_at.is_none());
    assert_eq!(job.attempts, 0);
}

#[test]
fn test_reschedule_overflow_is_database_error() {
    let mut storage = JobStore::new();
    let id = push_email(&mut storage, example_email());
    let r = storage.reschedule(id, u64::MAX, NOW);
    assert_eq!(r, Err(StorageError::Database));
    // Nothing moved.
    let job = get_job(&mut storage, id);
    assert_eq!(job.status, JobStatus::Pending);
}

#[test]
fn test_enqueue_scheduled_counts_the_attempt() {
    let mut storage = JobStore::new();
    let id = push_email(&mut storage, example_email());
    let worker_id = register_worker(&mut storage);
    consume_one(&mut storage, &worker_id);
    storage.reschedule(id, 60, NOW).expect("reschedule failed");

    let moved = storage.enqueue_scheduled(5);
    assert!(moved);
    let job = get_job(&mut storage, id);
    assert_eq!(job.status, JobStatus::Pending);
    assert_eq!(job.attempts, 1);
    assert!(job.lock_by.is_none());
}

#[test]
fn test_scheduled_job_not_eligible_before_run_at() {
    let mut storage = JobStore::new();
    let payload = JsonCodec::encode(&example_email());
    storage.schedule(payload, JOB_TYPE.to_string(), NOW + 3600);
    let worker_id = register_worker(&mut storage);
    let batch = storage.poll_tick(&worker_id, &JOB_TYPE.to_string(), NOW, 10);
    assert_eq!(batch.len(), 0);
    let batch = storage.poll_tick(&worker_id, &JOB_TYPE.to_string(), NOW + 3600, 10);
    assert_eq!(batch.len(), 1);
}

#[test]
fn test_payload_round_trips_through_the_store() {
    let mut storage = JobStore::new();
    let id = push_email(&mut storage, example_email());
    let row = get_job(&mut storage, id);
    let decoded = decode_payload(&row).expect("payload should decode");
    assert_eq!(decoded, example_email());
}

#[test]
fn test_malformed_payload_is_a_parse_error() {
    let mut storage = JobStore::new();
    let id = storage.push("not a payload".to_string(), JOB_TYPE.to_string(), NOW);
    let row = get_job(&mut storage, id);
    assert_eq!(decode_payload(&row), Err(StorageError::Parse));
}

#[test]
fn test_retry_accounting_stops_at_max_attempts() {
    let mut storage = JobStore::new();
    let id = push_email(&mut storage, example_email());
    let worker_id = register_worker(&mut storage);

    // Fail and re-enter the queue until the retry bound is reached.
    for _ in 0..25 {
        let job = consume_one(&mut storage, &worker_id);
        assert_eq!(job.id, id);
        storage.reschedule(id, 0, NOW).expect("reschedule failed");
        assert!(storage.enqueue_scheduled(10));
    }
    let job = get_job(&mut storage, id);
    assert_eq!(job.attempts, 25);
    assert_eq!(job.max_attempts, 25);
    assert_eq!(job.status, JobStatus::Pending);

    // One more failure: the row stays Failed, is no longer retryable, and
    // the bound is never exceeded.
    consume_one(&mut storage, &worker_id);
    storage.reschedule(id, 0, NOW).expect("reschedule failed");
    assert!(storage.enqueue_scheduled(10));
    let job = get_job(&mut storage, id);
    assert_eq!(job.status, JobStatus::Failed);
    assert_eq!(job.attempts, 25);
    let batch = storage.poll_tick(&worker_id, &"email".to_string(), NOW, 10);
    assert_eq!(batch.len(), 0);
}

#[test]
fn test_orphan_reap_takes_oldest_lock_first() {
    let mut storage = JobStore::new();
    let first = push_email(&mut storage, example_email());
    let second = push_email(&mut storage, example_email());
    let worker_id = register_worker_at(&mut storage, NOW - 400);

    // The first row is claimed later than the second, so the second holds
    // the older lock even though it comes later in row order.
    let jt = JOB_TYPE.to_string();
    storage.fetch_next(&worker_id, first, &jt, NOW - 50);
    storage.fetch_next(&worker_id, second, &jt, NOW - 100);

    // Budget of one: the oldest lock goes first.
    assert!(storage.reenqueue_orphaned(1, 300, NOW));
    let kept = get_job(&mut storage, first);
    assert_eq!(kept.status, JobStatus::Running);
    assert_eq!(kept.lock_at, Some(NOW - 50));
    let reaped = get_job(&mut storage, second);
    assert_eq!(reaped.status, JobStatus::Pending);
    assert!(reaped.lock_by.is_none());
    assert_eq!(reaped.last_error, Some("Job was abandoned".to_string()));
}

#[test]
fn test_enqueue_scheduled_budget_takes_row_order_on_ties() {
    let mut storage = JobStore::new();
    let first = push_email(&mut storage, example_email());
    let second = push_email(&mut storage, example_email());
    // Both rows fail; their cleared locks tie, so row order decides.
    storage.reschedule(first, 60, NOW).expect("reschedule failed");
    storage.reschedule(second, 60, NOW).expect("reschedule failed");

    assert!(storage.enqueue_scheduled(1));
    let moved = get_job(&mut storage, first);
    assert_eq!(moved.status, JobStatus::Pending);
    assert_eq!(moved.attempts, 1);
    let left = get_job(&mut storage, second);
    assert_eq!(left.status, JobStatus::Failed);
    assert_eq!(left.attempts, 0);
}

#[test]
fn test_update_persists_mutable_fields() {
    let mut storage = JobStore::new();
    let id = push_email(&mut storage, example_email());
    let worker_id = register_worker(&mut storage);
    consume_one(&mut storage, &worker_id);

    let mut row = get_job(&mut storage, id);
    row.status = JobStatus::Killed;
    row.done_at = Some(NOW + 5);
    row.last_error = Some("handler gave up".to_string());
    storage.update(&row);

    let stored = get_job(&mut storage, id);
    assert_eq!(stored.status, JobStatus::Killed);
    assert_eq!(stored.done_at, Some(NOW + 5));
    assert_eq!(stored.last_error, Some("handler gave up".to_string()));
    assert_eq!(stored.lock_by, Some(worker_id));
    // The fields update does not write stay as they were.
    assert_eq!(stored.run_at, NOW);
    assert_eq!(stored.max_attempts, 25);
}
