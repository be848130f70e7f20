//! Data model of a scenario: resources, role programs, families, ground truth.
//!
//! A resource is named by its index; identity is what matters, since the
//! acquisition order over resource names is what a detector reasons about.
//! A role is the ordered program one worker thread runs.  A scenario is a set
//! of roles plus its declared ground truth: the by-construction fact about
//! whether a real circular wait occurs.

use vstd::prelude::*;

verus! {

/// How a resource is acquired.  Shared acquisitions never mutually block;
/// only exclusive acquisitions can take part in a real circular wait.
#[derive(Clone, Copy, PartialEq, Eq, Structural, Debug)]
pub enum Mode {
    Exclusive,
    Shared,
}

/// One instruction of a role program.
///
/// `Acquire`/`Release` name a resource index.  `Barrier` is a rendezvous of
/// fixed arity (deterministic scenarios only).  `Sleep` is an adversarial
/// timing knob in microseconds, `YieldNow` a voluntary scheduler yield.
/// `PollAbort` reads the shared detection flag and aborts the role early if
/// it is set — advisory only, classification never depends on it.
/// `AwaitGate`/`StoreGate` wait on and set a small shared gate value
/// (condition wait/notify in the resource fabric); false-positive scenarios
/// use that counter so two conflicting lock orders never overlap in time.
#[derive(Clone, Copy, PartialEq, Eq, Structural, Debug)]
pub enum Step {
    Acquire(usize, Mode),
    Release(usize),
    Barrier(usize),
    Sleep(u64),
    YieldNow,
    PollAbort,
    AwaitGate(usize),
    StoreGate(usize),
}

/// The ordered program of one worker thread.
#[derive(Debug)]
pub struct Role {
    pub steps: Vec<Step>,
}

/// The three scenario families the harness constructs.
#[derive(Clone, Copy, PartialEq, Eq, Structural, Debug)]
pub enum Family {
    Deterministic,
    Probabilistic,
    FalsePositive,
}

/// The scenario author's by-construction fact about whether a real circular
/// wait occurs.
#[derive(Clone, Copy, PartialEq, Eq, Structural, Debug)]
pub enum GroundTruth {
    MustDeadlock,
    MustNotDeadlock,
}

/// A named set of roles plus metadata.  `shared_capable` records whether the
/// run's resources must support shared acquisition (a read/write backend
/// primitive); `seed` is present exactly for the seeded family.
pub struct Scenario {
    pub name: &'static str,
    pub family: Family,
    pub truth: GroundTruth,
    pub seed: Option<u64>,
    pub n_resources: usize,
    pub n_barriers: usize,
    pub n_gates: usize,
    pub shared_capable: bool,
    pub roles: Vec<Role>,
}

/// A step is well formed when every resource, barrier and gate index it
/// names is within the scenario's declared counts.
pub open spec fn step_wf(s: Step, n_resources: int, n_barriers: int, n_gates: int) -> bool {
    match s {
        Step::Acquire(r, _) => r < n_resources,
        Step::Release(r) => r < n_resources,
        Step::Barrier(b) => b < n_barriers,
        Step::AwaitGate(g) => g < n_gates,
        Step::StoreGate(g) => g < n_gates,
        _ => true,
    }
}

pub open spec fn role_wf(r: Role, n_resources: int, n_barriers: int, n_gates: int) -> bool {
    forall|k: int|
        0 <= k < r.steps@.len() ==> step_wf(#[trigger] r.steps@[k], n_resources, n_barriers, n_gates)
}

impl Scenario {
    /// Structural well-formedness plus the family invariants: a deterministic
    /// scenario's ground truth is `MustDeadlock`, a false-positive scenario's
    /// is `MustNotDeadlock`, and a seed is recorded exactly for the seeded
    /// family.
    pub open spec fn wf(self) -> bool {
        &&& self.roles@.len() >= 1
        &&& forall|i: int|
            0 <= i < self.roles@.len() ==> role_wf(
                #[trigger] self.roles@[i],
                self.n_resources as int,
                self.n_barriers as int,
                self.n_gates as int,
            )
        &&& (self.family is Deterministic ==> self.truth is MustDeadlock)
        &&& (self.family is FalsePositive ==> self.truth is MustNotDeadlock)
        &&& (self.seed is Some <==> self.family is Probabilistic)
    }
}

/// The set of resources a role holds after its first `k` steps, assuming the
/// program acquires a resource only while not holding it and releases only
/// resources it holds.
pub open spec fn held_after(steps: Seq<Step>, k: int) -> Set<usize>
    decreases k,
{
    if k <= 0 {
        Set::empty()
    } else {
        let prev = held_after(steps, k - 1);
        match steps[k - 1] {
            Step::Acquire(r, _) => prev.insert(r),
            Step::Release(r) => prev.remove(r),
            _ => prev,
        }
    }
}

/// A program whose every acquisition happens while it holds nothing.  Such a
/// role never holds one resource while waiting for another, so it can take
/// part in no hold-and-wait cycle.
pub open spec fn acquires_only_when_empty(steps: Seq<Step>) -> bool {
    forall|k: int|
        0 <= k < steps.len() && (#[trigger] steps[k]) is Acquire ==> held_after(steps, k) =~= Set::<
            usize,
        >::empty()
}

/// A program that respects the global resource hierarchy: whenever it
/// acquires a resource, every resource it already holds has a strictly
/// smaller index.  If every role of a run is hierarchical, the wait-for
/// graph can hold no cycle, since along any cycle the held indices would
/// have to increase forever.
pub open spec fn hierarchical(steps: Seq<Step>) -> bool {
    forall|k: int, h: usize|
        0 <= k < steps.len() && steps[k] is Acquire && #[trigger] held_after(steps, k).contains(h)
            ==> h < steps[k]->Acquire_0
}

/// A program whose every acquisition made while something is already held
/// is a shared acquisition.  Shared holders never mutually block, so such
/// roles cannot close an exclusive wait cycle among themselves.
pub open spec fn nested_acquires_shared(steps: Seq<Step>) -> bool {
    forall|k: int|
        0 <= k < steps.len() && (#[trigger] steps[k]) is Acquire && !(held_after(steps, k)
            =~= Set::<usize>::empty()) ==> steps[k]->Acquire_1 is Shared
}

/// The set of resources a program ever acquires.
pub open spec fn resources_of(steps: Seq<Step>) -> Set<usize> {
    Set::new(
        |res: usize|
            exists|k: int|
                0 <= k < steps.len() && (#[trigger] steps[k]) is Acquire && steps[k]->Acquire_0
                    == res,
    )
}

/// `m` copies of a loop body, concatenated.
pub open spec fn repeat_blocks(b: Seq<Step>, m: nat) -> Seq<Step>
    decreases m,
{
    if m == 0 {
        Seq::empty()
    } else {
        repeat_blocks(b, (m - 1) as nat) + b
    }
}

/// The held set after `k` steps depends only on those `k` steps.
pub proof fn lemma_held_prefix_eq(s1: Seq<Step>, s2: Seq<Step>, k: int)
    requires
        0 <= k <= s1.len(),
        k <= s2.len(),
        forall|m: int| 0 <= m < k ==> s1[m] == s2[m],
    ensures
        held_after(s1, k) == held_after(s2, k),
    decreases k,
{
    if k > 0 {
        lemma_held_prefix_eq(s1, s2, k - 1);
    }
}

/// Continuing a program that holds nothing: the held set `j` steps into the
/// continuation is the continuation's own held set.
pub proof fn lemma_held_concat(s: Seq<Step>, t: Seq<Step>, j: int)
    requires
        0 <= j <= t.len(),
        held_after(s, s.len() as int) =~= Set::<usize>::empty(),
    ensures
        held_after(s + t, s.len() + j) == held_after(t, j),
    decreases j,
{
    if j == 0 {
        lemma_held_prefix_eq(s + t, s, s.len() as int);
        assert(held_after(t, 0) =~= Set::<usize>::empty());
    } else {
        lemma_held_concat(s, t, j - 1);
        assert((s + t)[s.len() + j - 1] == t[j - 1]);
    }
}

/// Repeating a loop body that acquires only from empty hands and ends with
/// empty hands yields a program that acquires only from empty hands.
pub proof fn lemma_repeat_acquires_only_when_empty(b: Seq<Step>, m: nat)
    requires
        acquires_only_when_empty(b),
        held_after(b, b.len() as int) =~= Set::<usize>::empty(),
    ensures
        acquires_only_when_empty(repeat_blocks(b, m)),
        held_after(repeat_blocks(b, m), repeat_blocks(b, m).len() as int) =~= Set::<usize>::empty(),
        repeat_blocks(b, m).len() == m * b.len(),
    decreases m,
{
    if m == 0 {
        assert(held_after(repeat_blocks(b, 0), 0) =~= Set::<usize>::empty());
    } else {
        let s = repeat_blocks(b, (m - 1) as nat);
        lemma_repeat_acquires_only_when_empty(b, (m - 1) as nat);
        assert(repeat_blocks(b, m) == s + b);
        assert((s + b).len() == s.len() + b.len());
        assert(m * b.len() == (m - 1) * b.len() + b.len()) by (nonlinear_arith);
        assert forall|k: int|
            0 <= k < (s + b).len() && (#[trigger] (s + b)[k]) is Acquire implies held_after(
            s + b,
            k,
        ) =~= Set::<usize>::empty() by {
            if k < s.len() {
                lemma_held_prefix_eq(s + b, s, k);
            } else {
                lemma_held_concat(s, b, k - s.len());
            }
        }
        lemma_held_concat(s, b, b.len() as int);
    }
}

/// Repeating a hierarchical loop body that ends with empty hands yields a
/// hierarchical program.
pub proof fn lemma_repeat_hierarchical(b: Seq<Step>, m: nat)
    requires
        hierarchical(b),
        held_after(b, b.len() as int) =~= Set::<usize>::empty(),
    ensures
        hierarchical(repeat_blocks(b, m)),
        held_after(repeat_blocks(b, m), repeat_blocks(b, m).len() as int) =~= Set::<usize>::empty(),
    decreases m,
{
    if m == 0 {
        assert(held_after(repeat_blocks(b, 0), 0) =~= Set::<usize>::empty());
    } else {
        let s = repeat_blocks(b, (m - 1) as nat);
        lemma_repeat_hierarchical(b, (m - 1) as nat);
        assert forall|k: int, h: usize|
            0 <= k < (s + b).len() && (s + b)[k] is Acquire && #[trigger] held_after(
                s + b,
                k,
            ).contains(h) implies h < (s + b)[k]->Acquire_0 by {
            if k < s.len() {
                lemma_held_prefix_eq(s + b, s, k);
            } else {
                lemma_held_concat(s, b, k - s.len());
            }
        }
        lemma_held_concat(s, b, b.len() as int);
    }
}

/// Repeating a loop body whose nested acquisitions are shared, ending with
/// empty hands, yields a program whose nested acquisitions are shared.
pub proof fn lemma_repeat_nested_shared(b: Seq<Step>, m: nat)
    requires
        nested_acquires_shared(b),
        held_after(b, b.len() as int) =~= Set::<usize>::empty(),
    ensures
        nested_acquires_shared(repeat_blocks(b, m)),
        held_after(repeat_blocks(b, m), repeat_blocks(b, m).len() as int) =~= Set::<usize>::empty(),
    decreases m,
{
    if m == 0 {
        assert(held_after(repeat_blocks(b, 0), 0) =~= Set::<usize>::empty());
    } else {
        let s = repeat_blocks(b, (m - 1) as nat);
        lemma_repeat_nested_shared(b, (m - 1) as nat);
        assert forall|k: int|
            0 <= k < (s + b).len() && (#[trigger] (s + b)[k]) is Acquire && !(held_after(s + b, k)
                =~= Set::<usize>::empty()) implies (s + b)[k]->Acquire_1 is Shared by {
            if k < s.len() {
                lemma_held_prefix_eq(s + b, s, k);
            } else {
                lemma_held_concat(s, b, k - s.len());
            }
        }
        lemma_held_concat(s, b, b.len() as int);
    }
}

/// Well-formed steps stay well formed under repetition.
pub proof fn lemma_repeat_wf(b: Seq<Step>, m: nat, nr: int, nb: int, ng: int)
    requires
        forall|j: int| 0 <= j < b.len() ==> step_wf(#[trigger] b[j], nr, nb, ng),
    ensures
        forall|k: int|
            0 <= k < repeat_blocks(b, m).len() ==> step_wf(#[trigger] repeat_blocks(b, m)[k], nr, nb, ng),
    decreases m,
{
    if m > 0 {
        let s = repeat_blocks(b, (m - 1) as nat);
        lemma_repeat_wf(b, (m - 1) as nat, nr, nb, ng);
        assert forall|k: int| 0 <= k < (s + b).len() implies step_wf(
            #[trigger] (s + b)[k],
            nr,
            nb,
            ng,
        ) by {
            if k < s.len() {
                assert(step_wf(s[k], nr, nb, ng));
            } else {
                assert(step_wf(b[k - s.len()], nr, nb, ng));
            }
        }
    }
}

/// Every resource a repeated program acquires, its loop body acquires.
pub proof fn lemma_repeat_resources(b: Seq<Step>, m: nat)
    ensures
        resources_of(repeat_blocks(b, m)) =~= if m == 0 {
            Set::<usize>::empty()
        } else {
            resources_of(b)
        },
    decreases m,
{
    if m > 0 {
        let s = repeat_blocks(b, (m - 1) as nat);
        lemma_repeat_resources(b, (m - 1) as nat);
        assert forall|res: usize| resources_of(s + b).contains(res) implies resources_of(
            b,
        ).contains(res) by {
            let k = choose|k: int|
                0 <= k < (s + b).len() && (#[trigger] (s + b)[k]) is Acquire && (s
                    + b)[k]->Acquire_0 == res;
            if k < s.len() {
                assert(resources_of(s).contains(res));
            } else {
                assert(b[k - s.len()] is Acquire && b[k - s.len()]->Acquire_0 == res);
                assert(resources_of(b).contains(res));
            }
        }
        assert forall|res: usize| resources_of(b).contains(res) implies resources_of(
            s + b,
        ).contains(res) by {
            let k = choose|k: int|
                0 <= k < b.len() && (#[trigger] b[k]) is Acquire && b[k]->Acquire_0 == res;
            assert((s + b)[s.len() + k] is Acquire && (s + b)[s.len() + k]->Acquire_0 == res);
        }
    }
}

/// A purported wait-for loop: `waits` maps each waiting role to its
/// requested resource, `owner` maps each held resource to its holder, and
/// along `cycle` each role waits for a resource the next role holds, the
/// last role closing the loop back to the first.
pub open spec fn wait_cycle(waits: Map<int, usize>, owner: Map<usize, int>, cycle: Seq<int>) -> bool {
    &&& cycle.len() >= 1
    &&& forall|k: int| 0 <= k < cycle.len() ==> waits.contains_key(#[trigger] cycle[k])
    &&& forall|k: int|
        0 <= k < cycle.len() - 1 ==> owner.contains_key(waits[#[trigger] cycle[k]])
            && owner[waits[cycle[k]]] == cycle[k + 1]
    &&& owner.contains_key(waits[cycle[cycle.len() - 1]])
    &&& owner[waits[cycle[cycle.len() - 1]]] == cycle[0]
}

/// LAW — no hold-and-wait excludes circular waits.  Every wait-for cycle
/// exhibits a role that both waits for a resource and holds one (the
/// resource the previous role on the cycle waits for).  A run whose
/// waiting roles all hold nothing — what `acquires_only_when_empty` gives
/// each role at every request — therefore admits no wait-for cycle.
pub proof fn lemma_wait_cycle_has_hold_and_wait(
    waits: Map<int, usize>,
    owner: Map<usize, int>,
    cycle: Seq<int>,
)
    requires
        wait_cycle(waits, owner, cycle),
    ensures
        exists|i: int, r: usize|
            #[trigger] waits.contains_key(i) && #[trigger] owner.contains_key(r) && owner[r]
                == i,
{
    let len = cycle.len() as int;
    if len == 1 {
        let r = waits[cycle[0]];
        assert(waits.contains_key(cycle[0]) && owner.contains_key(r) && owner[r] == cycle[0]);
    } else {
        let r = waits[cycle[0]];
        assert(waits.contains_key(cycle[1]) && owner.contains_key(r) && owner[r] == cycle[1]);
    }
}

proof fn lemma_hierarchy_chain(
    waits: Map<int, usize>,
    owner: Map<usize, int>,
    cycle: Seq<int>,
    k: int,
)
    requires
        wait_cycle(waits, owner, cycle),
        forall|i: int, r: usize|
            waits.contains_key(i) && owner.contains_key(r) && #[trigger] owner[r] == i ==> r < (
            #[trigger] waits[i]),
        0 <= k < cycle.len(),
    ensures
        waits[cycle[0]] as int + k <= waits[cycle[k]] as int,
    decreases k,
{
    if k > 0 {
        lemma_hierarchy_chain(waits, owner, cycle, k - 1);
        let r = waits[cycle[k - 1]];
        assert(owner[r] == cycle[k]);
        assert(r < waits[cycle[k]]);
    }
}

/// LAW — a resource hierarchy excludes circular waits.  When every waiting
/// role's request lies strictly above everything that role holds — what
/// `hierarchical` gives each role at every request — the requested
/// resource indices would have to increase strictly all the way around a
/// wait-for cycle and come back to where they started; so no wait-for
/// cycle exists.
pub proof fn lemma_hierarchy_excludes_cycle(
    waits: Map<int, usize>,
    owner: Map<usize, int>,
    cycle: Seq<int>,
)
    requires
        forall|i: int, r: usize|
            waits.contains_key(i) && owner.contains_key(r) && #[trigger] owner[r] == i ==> r < (
            #[trigger] waits[i]),
    ensures
        !wait_cycle(waits, owner, cycle),
{
    if wait_cycle(waits, owner, cycle) {
        let len = cycle.len() as int;
        lemma_hierarchy_chain(waits, owner, cycle, len - 1);
        let r = waits[cycle[len - 1]];
        assert(owner[r] == cycle[0]);
        assert(r < waits[cycle[0]]);
    }
}

} // verus!
