//! Core of a durable, polling-based background job queue.
//!
//! The library is the job lifecycle engine: the state machine that moves
//! jobs through Pending -> Running -> {Done, Failed, Retry, Killed}, the
//! atomic claim protocol by which workers take jobs, the orphan-recovery
//! procedure that reclaims jobs from dead workers, the retry accounting,
//! and the pause/resume and wake-signal primitives that pace delivery.
//!
//! All authoritative state lives in a store; this crate models that store
//! and proves each transition against its contract. The surrounding
//! asynchronous runtime (clock, SQL driver, task spawning) supplies plain
//! values — the current time in epoch seconds, candidate rows — and runs
//! the loops; every decision it takes is a verified function of this crate.

pub mod codec;
pub mod controller;
pub mod error;
pub mod job;
pub mod laws;
pub mod manage;
pub mod notify;
pub mod poll;
pub mod store;
pub mod worker;
pub mod worker_loop;
