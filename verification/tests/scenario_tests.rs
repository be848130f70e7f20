use deadlock_detector_benchmark::deterministic::{
    guaranteed_condvar_deadlock, guaranteed_dining_philosophers, guaranteed_rwlock_deadlock,
    guaranteed_three_lock, guaranteed_two_lock,
};
use deadlock_detector_benchmark::engine::{Outcome, PollObservation, TestRunner};
use deadlock_detector_benchmark::false_positive::{
    complex_lock_order_fp, conditional_locking_fp, four_hier_fp, gate_guarded_fp,
    lock_free_interval_fp, lock_order_inversion_fp, producer_consumer_fp, read_dominated_fp,
    thread_local_hierarchy_fp,
};
use deadlock_detector_benchmark::model::{Family, GroundTruth, Mode, Step};
use deadlock_detector_benchmark::probabilistic::{
    dining_philosophers, five_lock_cycle, role_delays, rwlock_deadlock, three_lock_cycle, two_lock,
};

#[test]
fn test_two_resource_guaranteed_cycle_structure() {
    // Resources A, B; role 1 = [acquire(A), barrier, acquire(B)];
    // role 2 = [acquire(B), barrier, acquire(A)].
    let s = guaranteed_two_lock();
    assert_eq!(s.name, "guaranteed_two_lock");
    assert_eq!(s.family, Family::Deterministic);
    assert_eq!(s.truth, GroundTruth::MustDeadlock);
    assert_eq!(s.roles.len(), 2);
    assert_eq!(
        s.roles[0].steps,
        vec![
            Step::Acquire(0, Mode::Exclusive),
            Step::Barrier(0),
            Step::Acquire(1, Mode::Exclusive),
        ]
    );
    assert_eq!(
        s.roles[1].steps,
        vec![
            Step::Acquire(1, Mode::Exclusive),
            Step::Barrier(0),
            Step::Acquire(0, Mode::Exclusive),
        ]
    );
}

#[test]
fn test_two_resource_guaranteed_cycle_flagged_within_deadline() {
    // Expected outcome {flagged: true, timedOut: false} within the default
    // ten-second deadline: the detector sets the flag at some tick and no
    // worker ever completes.
    let s = guaranteed_two_lock();
    let mut r = TestRunner::new(s.roles.len());
    let mut trace = Vec::new();
    for _ in 0..50 {
        trace.push(PollObservation { flag_set: false, reports: vec![], disconnected: false });
    }
    trace.push(PollObservation { flag_set: true, reports: vec![], disconnected: false });
    let v = r.arbitrate(&trace);
    assert_eq!(v.outcome, Outcome::Flagged);
    assert!(v.outcome.is_flagged());
    assert!(!v.outcome.is_timed_out());
    assert!((v.ticks_used as u64) <= r.tick_budget());
}

#[test]
fn test_guaranteed_ring_sizes() {
    assert_eq!(guaranteed_three_lock().roles.len(), 3);
    assert_eq!(guaranteed_dining_philosophers().roles.len(), 5);
    assert_eq!(guaranteed_condvar_deadlock().roles.len(), 2);
    let three = guaranteed_three_lock();
    assert_eq!(three.n_resources, 3);
    assert_eq!(
        three.roles[2].steps,
        vec![
            Step::Acquire(2, Mode::Exclusive),
            Step::Barrier(0),
            Step::Acquire(0, Mode::Exclusive),
        ]
    );
}

#[test]
fn test_guaranteed_rwlock_uses_exclusive_modes_on_shared_capable_resources() {
    let s = guaranteed_rwlock_deadlock();
    assert!(s.shared_capable);
    for role in &s.roles {
        for step in &role.steps {
            if let Step::Acquire(_, mode) = step {
                assert_eq!(*mode, Mode::Exclusive);
            }
        }
    }
}

#[test]
fn test_seed_reproducibility_same_seed_same_delays() {
    // Two runs of the same probabilistic scenario with an identical
    // override seed produce identical per-role delay sequences.
    let a = two_lock(987654321);
    let b = two_lock(987654321);
    assert_eq!(a.seed, Some(987654321));
    for i in 0..a.roles.len() {
        assert_eq!(a.roles[i].steps, b.roles[i].steps);
        assert_eq!(role_delays(&a.roles[i]), role_delays(&b.roles[i]));
    }
    let c = five_lock_cycle(7);
    let d = five_lock_cycle(7);
    for i in 0..c.roles.len() {
        assert_eq!(role_delays(&c.roles[i]), role_delays(&d.roles[i]));
    }
}

#[test]
fn test_different_seeds_give_different_delays() {
    let a = five_lock_cycle(1);
    let b = five_lock_cycle(2);
    assert_ne!(role_delays(&a.roles[0]), role_delays(&b.roles[0]));
}

#[test]
fn test_seeded_delays_within_bounds() {
    let s = three_lock_cycle(42);
    for role in &s.roles {
        let delays = role_delays(&role);
        assert_eq!(delays.len(), 3);
        assert!(delays[0] >= 10 && delays[0] < 100);
        for d in &delays[1..] {
            assert!(*d >= 15 && *d < 80);
        }
    }
}

#[test]
fn test_seeded_ring_acquisition_order() {
    let s = three_lock_cycle(5);
    assert_eq!(s.roles.len(), 3);
    for (i, role) in s.roles.iter().enumerate() {
        let acquires: Vec<usize> = role
            .steps
            .iter()
            .filter_map(|st| match st {
                Step::Acquire(rid, _) => Some(*rid),
                _ => None,
            })
            .collect();
        assert_eq!(acquires, vec![i % 3, (i + 1) % 3, (i + 2) % 3]);
        let polls = role.steps.iter().filter(|st| matches!(st, Step::PollAbort)).count();
        assert_eq!(polls, 2);
        assert!(role.steps.iter().all(|st| !matches!(st, Step::Barrier(_))));
    }
    let dp = dining_philosophers(9);
    assert_eq!(dp.roles.len(), 5);
    let rw = rwlock_deadlock(11);
    assert!(rw.shared_capable);
}

#[test]
fn test_coordinator_gated_false_positive_structure() {
    // Role 1 loops five times: wait token, acquire(A), acquire(B), release
    // both, hand the token over; role 2 the reverse.  Expected outcome
    // {flagged: false} on every run.
    let s = conditional_locking_fp();
    assert_eq!(s.truth, GroundTruth::MustNotDeadlock);
    assert_eq!(s.roles.len(), 2);
    let forward_block = vec![
        Step::AwaitGate(0),
        Step::Acquire(0, Mode::Exclusive),
        Step::Sleep(100000),
        Step::Acquire(1, Mode::Exclusive),
        Step::Sleep(100000),
        Step::Release(1),
        Step::Release(0),
        Step::StoreGate(1),
    ];
    let reverse_block = vec![
        Step::AwaitGate(1),
        Step::Acquire(1, Mode::Exclusive),
        Step::Sleep(100000),
        Step::Acquire(0, Mode::Exclusive),
        Step::Sleep(100000),
        Step::Release(0),
        Step::Release(1),
        Step::StoreGate(0),
    ];
    let mut expected0 = Vec::new();
    let mut expected1 = Vec::new();
    for _ in 0..5 {
        expected0.extend_from_slice(&forward_block);
        expected1.extend_from_slice(&reverse_block);
    }
    assert_eq!(s.roles[0].steps, expected0);
    assert_eq!(s.roles[1].steps, expected1);
}

#[test]
fn test_coordinator_gated_clean_run_completes_unflagged() {
    let s = conditional_locking_fp();
    let mut r = TestRunner::new(s.roles.len());
    let trace = vec![
        PollObservation { flag_set: false, reports: vec![], disconnected: false },
        PollObservation { flag_set: false, reports: vec![true, true], disconnected: false },
    ];
    let v = r.arbitrate(&trace);
    assert_eq!(v.outcome, Outcome::Completed);
    assert!(!v.outcome.is_flagged());
}

#[test]
fn test_sequential_release_inversion_structure() {
    let s = lock_order_inversion_fp();
    assert_eq!(s.roles.len(), 2);
    assert_eq!(*s.roles[0].steps.last().unwrap(), Step::StoreGate(1));
    assert_eq!(s.roles[1].steps[0], Step::AwaitGate(1));
    // The signalling role releases everything before the signal.
    let mut held = 0i64;
    for step in &s.roles[0].steps {
        match step {
            Step::Acquire(_, _) => held += 1,
            Step::Release(_) => held -= 1,
            Step::StoreGate(_) => assert_eq!(held, 0),
            _ => {}
        }
    }
}

#[test]
fn test_never_nested_variants_hold_at_most_one_resource() {
    for s in [gate_guarded_fp(), lock_free_interval_fp(), producer_consumer_fp()] {
        assert_eq!(s.truth, GroundTruth::MustNotDeadlock);
        for role in &s.roles {
            let mut held = 0i64;
            for step in &role.steps {
                match step {
                    Step::Acquire(_, _) => {
                        assert_eq!(held, 0, "acquisition while holding in {}", s.name);
                        held += 1;
                    }
                    Step::Release(_) => held -= 1,
                    _ => {}
                }
            }
            assert_eq!(held, 0);
        }
    }
}

#[test]
fn test_thread_local_hierarchy_groups_are_disjoint() {
    let s = thread_local_hierarchy_fp();
    assert_eq!(s.roles.len(), 6);
    for (i, role) in s.roles.iter().enumerate() {
        for step in &role.steps {
            if let Step::Acquire(rid, _) = step {
                if i < 3 {
                    assert!(*rid < 3);
                } else {
                    assert!(*rid >= 3 && *rid < 6);
                }
            }
        }
    }
}

#[test]
fn test_hierarchical_variants_acquire_in_ascending_order() {
    for s in [four_hier_fp(), thread_local_hierarchy_fp()] {
        for role in &s.roles {
            let mut held: Vec<usize> = Vec::new();
            for step in &role.steps {
                match step {
                    Step::Acquire(rid, _) => {
                        assert!(held.iter().all(|h| h < rid), "hierarchy broken in {}", s.name);
                        held.push(*rid);
                    }
                    Step::Release(rid) => held.retain(|h| h != rid),
                    _ => {}
                }
            }
        }
    }
}

#[test]
fn test_read_dominated_nests_only_shared_acquisitions() {
    let s = read_dominated_fp();
    assert!(s.shared_capable);
    assert_eq!(s.roles.len(), 9);
    for role in &s.roles[..8] {
        let mut held = 0i64;
        for step in &role.steps {
            match step {
                Step::Acquire(_, mode) => {
                    if held > 0 {
                        assert_eq!(*mode, Mode::Shared);
                    }
                    held += 1;
                }
                Step::Release(_) => held -= 1,
                _ => {}
            }
        }
    }
    // The writer takes its single resource only with empty hands.
    let writer = &s.roles[8];
    let mut held = 0i64;
    for step in &writer.steps {
        match step {
            Step::Acquire(_, mode) => {
                assert_eq!(held, 0);
                assert_eq!(*mode, Mode::Exclusive);
                held += 1;
            }
            Step::Release(_) => held -= 1,
            _ => {}
        }
    }
}

#[test]
fn test_phased_ring_rotation_structure() {
    let s = complex_lock_order_fp();
    assert_eq!(s.roles.len(), 3);
    for (t, role) in s.roles.iter().enumerate() {
        assert_eq!(role.steps[0], Step::AwaitGate(t));
    }
    assert_eq!(*s.roles[0].steps.last().unwrap(), Step::StoreGate(1));
    assert_eq!(*s.roles[1].steps.last().unwrap(), Step::StoreGate(2));
    assert!(!matches!(s.roles[2].steps.last().unwrap(), Step::StoreGate(_)));
}

#[test]
fn test_guaranteed_abba_layered_barriers() {
    let s = deadlock_detector_benchmark::deterministic::guaranteed_abba();
    assert_eq!(s.truth, GroundTruth::MustDeadlock);
    assert_eq!(s.n_barriers, 2);
    assert_eq!(
        s.roles[0].steps,
        vec![
            Step::Barrier(0),
            Step::Acquire(0, Mode::Exclusive),
            Step::Barrier(1),
            Step::Acquire(1, Mode::Exclusive),
        ]
    );
    assert_eq!(
        s.roles[1].steps,
        vec![
            Step::Barrier(0),
            Step::Acquire(1, Mode::Exclusive),
            Step::Barrier(1),
            Step::Acquire(0, Mode::Exclusive),
        ]
    );
}
