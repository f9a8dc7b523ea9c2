//! Scheduling and synchronisation core of a small single-core kernel.
//!
//! The crate holds the stride scheduler and its dispatch step, the blocking
//! primitives (mutex, semaphore, condition variable) with their wait queues,
//! and the per-process resource ledger whose safety check refuses a request
//! that could end in a deadlock.
pub mod config;
pub mod error;
pub mod fs;
pub mod ledger;
pub mod sync;
pub mod syscall;
pub mod table;
pub mod task;
