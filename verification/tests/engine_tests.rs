use deadlock_detector_benchmark::backend::timeout_duration;
use deadlock_detector_benchmark::barrier::PhaseBarrier;
use deadlock_detector_benchmark::engine::{Outcome, PollObservation, TestRunner};

fn obs(flag_set: bool, reports: Vec<bool>, disconnected: bool) -> PollObservation {
    PollObservation { flag_set, reports, disconnected }
}

#[test]
fn test_timeout_duration_default() {
    assert_eq!(timeout_duration(), 10000);
}

#[test]
fn test_runner_new_defaults() {
    let r = TestRunner::new(3);
    assert_eq!(r.expected, 3);
    assert_eq!(r.completed, 0);
    assert_eq!(r.timeout_ms, 10000);
    assert_eq!(r.poll_interval_ms, 1);
}

#[test]
fn test_engine_flag_decides() {
    let mut r = TestRunner::new(2);
    let trace = vec![obs(false, vec![], false), obs(true, vec![], false)];
    let v = r.arbitrate(&trace);
    assert_eq!(v.outcome, Outcome::Flagged);
    assert_eq!(v.ticks_used, 2);
    assert!(v.outcome.is_flagged());
    assert!(!v.outcome.is_timed_out());
}

#[test]
fn test_engine_completion() {
    let mut r = TestRunner::new(2);
    let trace = vec![
        obs(false, vec![], false),
        obs(false, vec![true], false),
        obs(false, vec![true], false),
        obs(false, vec![], false),
    ];
    let v = r.arbitrate(&trace);
    assert_eq!(v.outcome, Outcome::Completed);
    assert_eq!(v.ticks_used, 3);
    assert!(!v.outcome.is_flagged());
    assert!(!v.outcome.is_timed_out());
}

#[test]
fn test_engine_failure_report_flags() {
    let mut r = TestRunner::new(2);
    let trace = vec![obs(false, vec![true, false], false)];
    let v = r.arbitrate(&trace);
    assert_eq!(v.outcome, Outcome::Flagged);
    assert_eq!(v.ticks_used, 1);
}

#[test]
fn test_engine_disconnect_flags() {
    let mut r = TestRunner::new(2);
    let trace = vec![obs(false, vec![], true)];
    let v = r.arbitrate(&trace);
    assert_eq!(v.outcome, Outcome::Flagged);
}

#[test]
fn test_engine_flag_has_priority_over_completion() {
    let mut r = TestRunner::new(2);
    let trace = vec![obs(true, vec![true, true], false)];
    let v = r.arbitrate(&trace);
    assert_eq!(v.outcome, Outcome::Flagged);
}

#[test]
fn test_engine_times_out_at_tick_budget() {
    // A worker that never terminates produces no observation at all: the
    // engine must return at the deadline with TimedOut, having consumed
    // exactly its tick budget.
    let mut r = TestRunner::new(1);
    let budget = r.tick_budget() as usize;
    assert_eq!(budget, 10001);
    let mut trace = Vec::new();
    for _ in 0..budget {
        trace.push(obs(false, vec![], false));
    }
    let v = r.arbitrate(&trace);
    assert_eq!(v.outcome, Outcome::TimedOut);
    assert_eq!(v.ticks_used, budget);
    assert!(v.outcome.is_timed_out());
}

#[test]
fn test_engine_zero_expected_completes_immediately() {
    let mut r = TestRunner::new(0);
    let trace = vec![obs(false, vec![], false)];
    let v = r.arbitrate(&trace);
    assert_eq!(v.outcome, Outcome::Completed);
    assert_eq!(v.ticks_used, 1);
}

#[test]
fn test_engine_empty_trace_times_out() {
    let mut r = TestRunner::new(1);
    let trace: Vec<PollObservation> = Vec::new();
    let v = r.arbitrate(&trace);
    assert_eq!(v.outcome, Outcome::TimedOut);
    assert_eq!(v.ticks_used, 0);
}

#[test]
fn test_barrier_orders_phases() {
    // Phase-one exits must reach the arity before any phase-two entry.
    let mut b = PhaseBarrier::new(3);
    assert!(!b.depart());
    assert!(b.arrive());
    assert!(!b.depart());
    assert!(b.arrive());
    assert!(!b.depart());
    assert!(b.arrive());
    assert_eq!(b.arrived, 3);
    assert!(!b.arrive());
    assert!(b.depart());
    assert!(b.depart());
    assert!(b.depart());
    assert!(!b.depart());
    assert_eq!(b.departed, 3);
}
