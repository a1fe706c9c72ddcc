//! An asynchronous job-dispatch and lifecycle-tracking core.
//!
//! The library is the decision-making heart of a job-submission service:
//! a registry that tracks every job's lifecycle, a bounded execution pool
//! with a FIFO overflow queue, and a dispatcher that admits, deduplicates
//! and back-pressures submissions. All state transitions are verified;
//! the surrounding HTTP and async plumbing lives outside the library and
//! drives it through plain values.

pub mod job;
pub mod registry;
pub mod pool;
pub mod engine;
pub mod laws;
