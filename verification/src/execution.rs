//! An operational model of running the deterministic cycle scenario.
//!
//! The structural certificate in `deterministic` says what each role's
//! program looks like; this module says what happens when the programs run.
//! A state holds each role's program counter and each resource's owner; a
//! role may step when its next instruction is enabled under lock and
//! barrier semantics: an acquire needs a free resource, the barrier opens
//! only once every role has arrived.  Over this model the guarantee is
//! proved schedule-independently: no interleaving lets any role finish its
//! program, and once every role has passed the barrier, the run stands in a
//! total circular wait — each role's pending request is held by the next
//! role around the ring, and no transition is enabled at all.

use vstd::prelude::*;

use crate::deterministic::spec_cycle_role;
use crate::model::{Mode, Step};

verus! {

/// A run state of the `n`-cycle: `pcs[i]` counts the instructions role `i`
/// has completed, `owners[r]` is the role holding resource `r`.
pub struct CycleState {
    pub pcs: Seq<int>,
    pub owners: Seq<Option<int>>,
}

pub open spec fn state_wf(st: CycleState, n: int) -> bool {
    &&& st.pcs.len() == n
    &&& st.owners.len() == n
}

/// Before any role runs: nothing executed, nothing owned.
pub open spec fn init_state(n: int) -> CycleState {
    CycleState {
        pcs: Seq::new(n as nat, |i: int| 0),
        owners: Seq::new(n as nat, |i: int| Option::<int>::None),
    }
}

/// The resource role `i`'s second acquisition requests.
pub open spec fn next_resource(i: int, n: int) -> int {
    (i + 1) % n
}

/// Whether role `i` may take its next instruction: the first acquire needs
/// its own resource free, the barrier opens once all `n` roles have
/// arrived, the second acquire needs the next resource free, and a
/// finished role has nothing left.
pub open spec fn enabled(st: CycleState, i: int, n: int) -> bool {
    &&& state_wf(st, n)
    &&& 0 <= i < n
    &&& if st.pcs[i] == 0 {
        st.owners[i] is None
    } else if st.pcs[i] == 1 {
        forall|j: int| 0 <= j < n ==> st.pcs[j] >= 1
    } else if st.pcs[i] == 2 {
        st.owners[next_resource(i, n)] is None
    } else {
        false
    }
}

/// The state after role `i` takes its next instruction.
pub open spec fn step_state(st: CycleState, i: int, n: int) -> CycleState {
    if st.pcs[i] == 0 {
        CycleState { pcs: st.pcs.update(i, 1), owners: st.owners.update(i, Some(i)) }
    } else if st.pcs[i] == 1 {
        CycleState { pcs: st.pcs.update(i, 2), owners: st.owners }
    } else {
        CycleState {
            pcs: st.pcs.update(i, 3),
            owners: st.owners.update(next_resource(i, n), Some(i)),
        }
    }
}

/// The state a schedule (a sequence of role indices) drives a run into.
pub open spec fn run(st: CycleState, sched: Seq<int>, n: int) -> CycleState
    decreases sched.len(),
{
    if sched.len() == 0 {
        st
    } else {
        run(step_state(st, sched[0], n), sched.drop_first(), n)
    }
}

/// A schedule is valid when every scheduled role was enabled when it ran.
pub open spec fn valid_sched(st: CycleState, sched: Seq<int>, n: int) -> bool
    decreases sched.len(),
{
    sched.len() == 0 || (enabled(st, sched[0], n) && valid_sched(
        step_state(st, sched[0], n),
        sched.drop_first(),
        n,
    ))
}

/// The inductive invariant of every run of the cycle scenario: program
/// counters never pass the barrier's acquire; resource `r` is owned exactly
/// by role `r`, from its first acquisition on; and once any role has passed
/// the barrier, every role has arrived (so every resource is owned).
pub open spec fn inv(st: CycleState, n: int) -> bool {
    &&& n >= 2
    &&& state_wf(st, n)
    &&& forall|i: int| 0 <= i < n ==> 0 <= #[trigger] st.pcs[i] <= 2
    &&& forall|i: int| 0 <= i < n ==> (st.pcs[i] >= 1 <==> #[trigger] st.owners[i] == Some(i))
    &&& forall|i: int| 0 <= i < n ==> ((#[trigger] st.owners[i]) is None || st.owners[i] == Some(i))
    &&& (exists|i: int| 0 <= i < n && #[trigger] st.pcs[i] == 2) ==> (forall|j: int|
        0 <= j < n ==> #[trigger] st.pcs[j] >= 1)
}

proof fn lemma_inv_init(n: int)
    requires
        n >= 2,
    ensures
        inv(init_state(n), n),
{
}

/// Under the invariant, the second acquisition is never enabled: its target
/// is already owned by the next role around the ring.
proof fn lemma_second_acquire_blocked(st: CycleState, i: int, n: int)
    requires
        inv(st, n),
        0 <= i < n,
        st.pcs[i] == 2,
    ensures
        !enabled(st, i, n),
        st.owners[next_resource(i, n)] == Some(next_resource(i, n)),
{
    assert(0 <= next_resource(i, n) < n) by (nonlinear_arith)
        requires n >= 2, 0 <= i;
    assert(st.pcs[next_resource(i, n)] >= 1);
}

proof fn lemma_inv_step(st: CycleState, i: int, n: int)
    requires
        inv(st, n),
        enabled(st, i, n),
    ensures
        inv(step_state(st, i, n), n),
{
    if st.pcs[i] == 0 {
        let st2 = step_state(st, i, n);
        assert forall|j: int| 0 <= j < n implies (st2.pcs[j] >= 1 <==> #[trigger] st2.owners[j]
            == Some(j)) by {
            if j != i {
                assert(st2.pcs[j] == st.pcs[j] && st2.owners[j] == st.owners[j]);
            }
        }
        assert forall|j: int|
            0 <= j < n implies ((#[trigger] st2.owners[j]) is None || st2.owners[j]
            == Some(j)) by {
            if j != i {
                assert(st2.owners[j] == st.owners[j]);
            }
        }
        if exists|k: int| 0 <= k < n && st2.pcs[k] == 2 {
            let k = choose|k: int| 0 <= k < n && st2.pcs[k] == 2;
            assert(st.pcs[k] == 2);
            assert(st.pcs[i] >= 1);
            assert(false);
        }
    } else if st.pcs[i] == 1 {
        let st2 = step_state(st, i, n);
        assert forall|j: int| 0 <= j < n implies (st2.pcs[j] >= 1 <==> #[trigger] st2.owners[j]
            == Some(j)) by {
            if j != i {
                assert(st2.pcs[j] == st.pcs[j]);
            }
        }
        assert(forall|j: int| 0 <= j < n ==> #[trigger] st2.pcs[j] >= 1);
    } else {
        lemma_second_acquire_blocked(st, i, n);
    }
}

proof fn lemma_inv_run(st: CycleState, sched: Seq<int>, n: int)
    requires
        inv(st, n),
        valid_sched(st, sched, n),
    ensures
        inv(run(st, sched, n), n),
    decreases sched.len(),
{
    if sched.len() > 0 {
        lemma_inv_step(st, sched[0], n);
        lemma_inv_run(step_state(st, sched[0], n), sched.drop_first(), n);
    }
}

/// LAW — the guaranteed cycle can never complete: under every valid
/// schedule, every role of the `n`-cycle has executed at most its first two
/// instructions; no role ever obtains its second resource, so no worker of
/// a deterministic scenario can ever report success.
pub proof fn theorem_cycle_never_completes(n: int, sched: Seq<int>)
    requires
        n >= 2,
        valid_sched(init_state(n), sched, n),
    ensures
        forall|i: int| 0 <= i < n ==> 0 <= #[trigger] run(init_state(n), sched, n).pcs[i] <= 2,
{
    lemma_inv_init(n);
    lemma_inv_run(init_state(n), sched, n);
}

/// LAW — total circular wait: in any reached state where every role has
/// passed the barrier, resource `i` is held by role `i`, role `i`'s pending
/// request is the resource held by the next role around the ring, and no
/// role has any enabled transition — the run is deadlocked, permanently.
pub proof fn theorem_cycle_deadlock_state(n: int, sched: Seq<int>)
    requires
        n >= 2,
        valid_sched(init_state(n), sched, n),
        forall|i: int| 0 <= i < n ==> #[trigger] run(init_state(n), sched, n).pcs[i] == 2,
    ensures
        forall|i: int|
            0 <= i < n ==> #[trigger] run(init_state(n), sched, n).owners[i] == Some(i),
        forall|i: int| 0 <= i < n ==> !enabled(run(init_state(n), sched, n), i, n),
{
    lemma_inv_init(n);
    lemma_inv_run(init_state(n), sched, n);
    let st = run(init_state(n), sched, n);
    assert forall|i: int| 0 <= i < n implies !enabled(st, i, n) by {
        lemma_second_acquire_blocked(st, i, n);
    }
}

/// The model's three transitions are exactly the three instructions of the
/// constructed cycle role: first acquire own resource, then the common
/// barrier, then acquire the next resource, all in exclusive mode.
pub proof fn lemma_model_matches_program(i: usize, n: usize)
    requires
        i < n,
        2 <= n,
    ensures
        spec_cycle_role(i, n)[0] == Step::Acquire(i, Mode::Exclusive),
        spec_cycle_role(i, n)[1] == Step::Barrier(0),
        spec_cycle_role(i, n)[2] == Step::Acquire(
            (next_resource(i as int, n as int)) as usize,
            Mode::Exclusive,
        ),
{
}

} // verus!
