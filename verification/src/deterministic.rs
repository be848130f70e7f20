//! Deterministic scenario constructors: barrier-guaranteed circular waits.
//!
//! Role `i` of an `n`-cycle acquires resource `i`, rendezvouses with all
//! other roles at one barrier of arity `n`, then attempts resource
//! `(i + 1) mod n`.  The barrier enforces that every role already holds its
//! first resource before any role attempts its second, so the first→second
//! edges form a true, simultaneously held cycle: the deadlock is guaranteed,
//! not probabilistic.  Both edges are exclusive acquisitions even in the
//! read/write variant — shared acquisitions on both edges would not create
//! contention and must not be used to claim a guaranteed deadlock.

use vstd::prelude::*;

use crate::model::{held_after, role_wf, Family, GroundTruth, Mode, Role, Scenario, Step};

verus! {

/// The program of role `i` in an `n`-cycle.
pub open spec fn spec_cycle_role(i: usize, n: usize) -> Seq<Step> {
    seq![
        Step::Acquire(i, Mode::Exclusive),
        Step::Barrier(0),
        Step::Acquire((((i + 1) % (n as int)) as usize), Mode::Exclusive),
    ]
}

/// Certificate shape of one cycle role: hold `first`, rendezvous, request
/// `second`, all exclusively.
pub open spec fn cycle_role_shape(r: Role, first: usize, second: usize) -> bool {
    r.steps@ == seq![
        Step::Acquire(first, Mode::Exclusive),
        Step::Barrier(0),
        Step::Acquire(second, Mode::Exclusive),
    ]
}

/// A scenario whose roles form a directed cycle over its resources: role
/// `i` holds resource `i` and requests resource `(i + 1) mod n` after the
/// common barrier.
pub open spec fn guaranteed_cycle(s: Scenario) -> bool {
    let n = s.roles@.len() as int;
    &&& n >= 2
    &&& forall|i: int|
        0 <= i < n ==> cycle_role_shape(
            #[trigger] s.roles@[i],
            i as usize,
            ((i + 1) % n) as usize,
        )
}

/// Build the `n`-cycle deterministic scenario under `name`.
/// `shared_capable` asks the run for read/write-capable resources; the
/// acquisition modes stay exclusive either way.
pub fn cycle_scenario(name: &'static str, n: usize, shared_capable: bool) -> (s: Scenario)
    requires
        2 <= n,
    ensures
        s.name == name,
        s.family is Deterministic,
        s.truth is MustDeadlock,
        s.seed is None,
        s.n_resources == n,
        s.n_barriers == 1,
        s.n_gates == 0,
        s.shared_capable == shared_capable,
        s.roles@.len() == n,
        forall|i: int|
            0 <= i < n ==> (#[trigger] s.roles@[i]).steps@ == spec_cycle_role(i as usize, n),
        s.wf(),
        guaranteed_cycle(s),
{
    let mut roles: Vec<Role> = Vec::new();
    let mut i: usize = 0;
    while i < n
        invariant
            2 <= n,
            0 <= i <= n,
            roles@.len() == i,
            forall|j: int|
                0 <= j < i ==> (#[trigger] roles@[j]).steps@ == spec_cycle_role(j as usize, n),
        decreases n - i,
    {
        let mut steps: Vec<Step> = Vec::new();
        steps.push(Step::Acquire(i, Mode::Exclusive));
        steps.push(Step::Barrier(0));
        steps.push(Step::Acquire((i + 1) % n, Mode::Exclusive));
        proof {
            assert(steps@ =~= spec_cycle_role(i, n));
        }
        roles.push(Role { steps });
        i = i + 1;
    }
    let s = Scenario {
        name,
        family: Family::Deterministic,
        truth: GroundTruth::MustDeadlock,
        seed: None,
        n_resources: n,
        n_barriers: 1,
        n_gates: 0,
        shared_capable,
        roles,
    };
    proof {
        assert forall|ri: int| 0 <= ri < s.roles@.len() implies role_wf(
            #[trigger] s.roles@[ri],
            s.n_resources as int,
            s.n_barriers as int,
            s.n_gates as int,
        ) by {
            assert(s.roles@[ri].steps@ == spec_cycle_role(ri as usize, n));
            assert(((ri + 1) % (n as int)) < n as int) by (nonlinear_arith)
                requires n >= 2, 0 <= ri;
        }
        assert forall|i2: int| 0 <= i2 < s.roles@.len() as int implies cycle_role_shape(
            #[trigger] s.roles@[i2],
            i2 as usize,
            ((i2 + 1) % (s.roles@.len() as int)) as usize,
        ) by {
            assert(s.roles@[i2].steps@ == spec_cycle_role(i2 as usize, n));
        }
    }
    s
}

/// The classic two-lock cycle, guaranteed by the barrier.
pub fn guaranteed_two_lock() -> (s: Scenario)
    ensures
        s.name@ == "guaranteed_two_lock"@,
        s.wf(),
        guaranteed_cycle(s),
        s.roles@.len() == 2,
        forall|i: int|
            0 <= i < 2 ==> (#[trigger] s.roles@[i]).steps@ == spec_cycle_role(i as usize, 2),
{
    cycle_scenario("guaranteed_two_lock", 2, false)
}

/// A three-way ring of exclusive locks, guaranteed by the barrier.
pub fn guaranteed_three_lock() -> (s: Scenario)
    ensures
        s.name@ == "guaranteed_three_lock"@,
        s.wf(),
        guaranteed_cycle(s),
        s.roles@.len() == 3,
{
    cycle_scenario("guaranteed_three_lock", 3, false)
}

/// Five philosophers, each holding the left fork and requesting the right:
/// the five-cycle, guaranteed by the barrier.
pub fn guaranteed_dining_philosophers() -> (s: Scenario)
    ensures
        s.name@ == "guaranteed_dining_philosophers"@,
        s.wf(),
        guaranteed_cycle(s),
        s.roles@.len() == 5,
{
    cycle_scenario("guaranteed_dining_philosophers", 5, false)
}

/// The two-cycle over read/write-capable resources, with both edges in
/// exclusive (write) mode, guaranteed by the barrier.
pub fn guaranteed_rwlock_deadlock() -> (s: Scenario)
    ensures
        s.name@ == "guaranteed_rwlock_deadlock"@,
        s.wf(),
        guaranteed_cycle(s),
        s.shared_capable,
        s.roles@.len() == 2,
{
    cycle_scenario("guaranteed_rwlock_deadlock", 2, true)
}

/// The two-cycle guaranteed through mutexes under a condition-style name:
/// the hold-and-wait pattern is the same ABBA cycle.
pub fn guaranteed_condvar_deadlock() -> (s: Scenario)
    ensures
        s.name@ == "guaranteed_condvar_deadlock"@,
        s.wf(),
        guaranteed_cycle(s),
        s.roles@.len() == 2,
{
    cycle_scenario("guaranteed_condvar_deadlock", 2, false)
}

/// The program of role `i` in the layered two-barrier ABBA variant: align
/// at the first barrier, take the own resource, rendezvous again, request
/// the other role's resource.
pub open spec fn spec_abba_role(i: usize) -> Seq<Step> {
    seq![
        Step::Barrier(0),
        Step::Acquire(i, Mode::Exclusive),
        Step::Barrier(1),
        Step::Acquire(((1 - i as int) as usize), Mode::Exclusive),
    ]
}

/// The two-role, two-resource ABBA variant with a second barrier pair
/// layered on: the first barrier aligns the roles' starts, the second
/// enforces the simultaneous hold.  The same construction as the two-cycle,
/// for a non-ring topology.
pub fn guaranteed_abba() -> (s: Scenario)
    ensures
        s.name@ == "guaranteed_abba"@,
        s.family is Deterministic,
        s.truth is MustDeadlock,
        s.seed is None,
        s.n_resources == 2,
        s.n_barriers == 2,
        s.roles@.len() == 2,
        forall|i: int| 0 <= i < 2 ==> (#[trigger] s.roles@[i]).steps@ == spec_abba_role(i as usize),
        s.wf(),
        forall|i: int|
            0 <= i < 2 ==> held_after(#[trigger] s.roles@[i].steps@, 3) =~= set![i as usize],
        s.roles@[0].steps@[3] == Step::Acquire(1usize, Mode::Exclusive),
        s.roles@[1].steps@[3] == Step::Acquire(0usize, Mode::Exclusive),
{
    let mut roles: Vec<Role> = Vec::new();
    let mut i: usize = 0;
    while i < 2
        invariant
            0 <= i <= 2,
            roles@.len() == i,
            forall|j: int| 0 <= j < i ==> (#[trigger] roles@[j]).steps@ == spec_abba_role(j as usize),
        decreases 2 - i,
    {
        let mut steps: Vec<Step> = Vec::new();
        steps.push(Step::Barrier(0));
        steps.push(Step::Acquire(i, Mode::Exclusive));
        steps.push(Step::Barrier(1));
        steps.push(Step::Acquire(1 - i, Mode::Exclusive));
        proof {
            assert(steps@ =~= spec_abba_role(i));
        }
        roles.push(Role { steps });
        i = i + 1;
    }
    let s = Scenario {
        name: "guaranteed_abba",
        family: Family::Deterministic,
        truth: GroundTruth::MustDeadlock,
        seed: None,
        n_resources: 2,
        n_barriers: 2,
        n_gates: 0,
        shared_capable: false,
        roles,
    };
    proof {
        assert forall|ri: int| 0 <= ri < s.roles@.len() implies role_wf(
            #[trigger] s.roles@[ri],
            2,
            2,
            0,
        ) by {
            assert(s.roles@[ri].steps@ == spec_abba_role(ri as usize));
        }
        assert forall|i2: int| 0 <= i2 < 2 implies held_after(#[trigger] s.roles@[i2].steps@, 3)
            =~= set![i2 as usize] by {
            let st = s.roles@[i2].steps@;
            assert(st == spec_abba_role(i2 as usize));
            assert(held_after(st, 0) =~= Set::<usize>::empty());
            assert(held_after(st, 1) =~= Set::<usize>::empty());
            assert(held_after(st, 2) =~= Set::<usize>::empty().insert(i2 as usize));
            assert(held_after(st, 3) =~= held_after(st, 2));
        }
    }
    s
}

/// LAW — the deterministic construction certifies a circular wait: in every
/// scenario satisfying `guaranteed_cycle`, after its first two steps each
/// role holds exactly its own resource; its pending third step requests the
/// resource held by the next role around the ring; and no role requests a
/// resource it already holds.  All roles reach this point together (the
/// common barrier of arity `n`, see the barrier laws), so the requests form
/// a simultaneously held directed cycle over all `n` roles: a real deadlock,
/// on every run, under every schedule the barrier admits.
pub proof fn lemma_cycle_certificate(s: Scenario)
    requires
        guaranteed_cycle(s),
        s.roles@.len() <= usize::MAX,
    ensures
        forall|i: int|
            0 <= i < s.roles@.len() ==> held_after(#[trigger] s.roles@[i].steps@, 2)
                =~= set![i as usize],
        forall|i: int|
            0 <= i < s.roles@.len() ==> (#[trigger] s.roles@[i]).steps@[2] == Step::Acquire(
                ((i + 1) % (s.roles@.len() as int)) as usize,
                Mode::Exclusive,
            ),
        forall|i: int|
            0 <= i < s.roles@.len() ==> (#[trigger] s.roles@[i]).steps@[2]->Acquire_0 != i as usize,
{
    let n = s.roles@.len() as int;
    assert forall|i: int| 0 <= i < n implies held_after(#[trigger] s.roles@[i].steps@, 2)
        =~= set![i as usize] by {
        let steps = s.roles@[i].steps@;
        assert(cycle_role_shape(s.roles@[i], i as usize, ((i + 1) % n) as usize));
        assert(held_after(steps, 0) =~= Set::<usize>::empty());
        assert(held_after(steps, 1) =~= Set::<usize>::empty().insert(i as usize));
        assert(held_after(steps, 2) =~= held_after(steps, 1));
    }
    assert forall|i: int| 0 <= i < n implies (#[trigger] s.roles@[i]).steps@[2]->Acquire_0
        != i as usize by {
        assert(cycle_role_shape(s.roles@[i], i as usize, ((i + 1) % n) as usize));
        assert(0 <= (i + 1) % n < n && ((i + 1) % n) != i) by (nonlinear_arith)
            requires n >= 2, 0 <= i < n;
        assert((((i + 1) % n) as usize) != (i as usize));
    }
}

} // verus!
