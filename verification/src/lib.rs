//! Core of a correctness harness for deadlock-detection tools.
//!
//! The crate builds multi-thread lock scenarios with a known ground truth
//! (a circular wait is guaranteed, impossible, or probable under adversarial
//! timing) and arbitrates, within a bounded time window, what actually
//! happened versus what a detection backend reported.  Scenario programs,
//! the barrier rendezvous model, the arbitration decisions and the log
//! formatting are all verified; threads, lock backends and file output live
//! outside the library and only execute what the library has decided.

pub mod backend;
pub mod barrier;
pub mod deterministic;
pub mod engine;
pub mod execution;
pub mod false_positive;
pub mod model;
pub mod probabilistic;
pub mod sink;
