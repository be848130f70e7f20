//! False-positive scenario constructors: textually conflicting acquisition
//! orders that are synchronized so no real circular wait can occur.
//!
//! A lock-order detector sees a cycle in these scenarios' acquisition-order
//! graphs; the wait-for graph never holds one.  Each variant carries its own
//! mechanism, stated and proved here: acquisitions made only from empty
//! hands (no hold-and-wait), a global resource hierarchy, disjoint resource
//! sets, shared-mode nesting, an explicit completion signal, or a gate that
//! keeps at most one conflicting order live at a time.  Ground truth for
//! every variant is `MustNotDeadlock`: a correct backend classifies every
//! run `Completed`.

use vstd::prelude::*;

use crate::model::{
    acquires_only_when_empty, held_after, hierarchical, lemma_repeat_acquires_only_when_empty,
    lemma_repeat_hierarchical, lemma_repeat_nested_shared, lemma_repeat_resources, lemma_repeat_wf,
    nested_acquires_shared, repeat_blocks, resources_of, role_wf, step_wf, Family, GroundTruth,
    Mode, Role, Scenario, Step,
};

verus! {

/// Build a role that runs `block` `m` times.
fn repeated_role(block: &Vec<Step>, m: usize) -> (r: Role)
    ensures
        r.steps@ == repeat_blocks(block@, m as nat),
{
    let mut steps: Vec<Step> = Vec::new();
    proof {
        assert(steps@ =~= repeat_blocks(block@, 0));
    }
    let mut i: usize = 0;
    while i < m
        invariant
            0 <= i <= m,
            steps@ == repeat_blocks(block@, i as nat),
        decreases m - i,
    {
        let n = block.len();
        let mut j: usize = 0;
        while j < n
            invariant
                0 <= j <= n,
                n == block@.len(),
                steps@ == repeat_blocks(block@, i as nat) + block@.take(j as int),
            decreases n - j,
        {
            steps.push(block[j]);
            proof {
                assert(steps@ =~= repeat_blocks(block@, i as nat) + block@.take(j as int + 1));
            }
            j = j + 1;
        }
        proof {
            assert(block@.take(block@.len() as int) =~= block@);
            assert(steps@ =~= repeat_blocks(block@, (i + 1) as nat));
        }
        i = i + 1;
    }
    Role { steps }
}

/// Loop body that takes and fully releases `first`, idles, then takes and
/// fully releases `second`: conflicting orders across roles, but the two
/// holds are never concurrently outstanding.
pub open spec fn spec_release_then_swap_block(
    first: usize,
    second: usize,
    hold_us: u64,
    gap_us: u64,
    tail_us: u64,
) -> Seq<Step> {
    seq![
        Step::Acquire(first, Mode::Exclusive),
        Step::Sleep(hold_us),
        Step::Release(first),
        Step::Sleep(gap_us),
        Step::Acquire(second, Mode::Exclusive),
        Step::Sleep(hold_us),
        Step::Release(second),
        Step::Sleep(tail_us),
    ]
}

proof fn lemma_release_then_swap_block_props(
    first: usize,
    second: usize,
    hold_us: u64,
    gap_us: u64,
    tail_us: u64,
    nr: int,
)
    requires
        first < nr,
        second < nr,
    ensures
        acquires_only_when_empty(
            spec_release_then_swap_block(first, second, hold_us, gap_us, tail_us),
        ),
        held_after(spec_release_then_swap_block(first, second, hold_us, gap_us, tail_us), 8)
            =~= Set::<usize>::empty(),
        forall|j: int|
            0 <= j < 8 ==> step_wf(
                #[trigger] spec_release_then_swap_block(first, second, hold_us, gap_us, tail_us)[j],
                nr,
                0,
                0,
            ),
{
    let b = spec_release_then_swap_block(first, second, hold_us, gap_us, tail_us);
    assert(held_after(b, 0) =~= Set::<usize>::empty());
    assert(held_after(b, 1) =~= Set::<usize>::empty().insert(first));
    assert(held_after(b, 2) =~= Set::<usize>::empty().insert(first));
    assert(held_after(b, 3) =~= Set::<usize>::empty());
    assert(held_after(b, 4) =~= Set::<usize>::empty());
    assert(held_after(b, 5) =~= Set::<usize>::empty().insert(second));
    assert(held_after(b, 6) =~= Set::<usize>::empty().insert(second));
    assert(held_after(b, 7) =~= Set::<usize>::empty());
    assert(held_after(b, 8) =~= Set::<usize>::empty());
    assert forall|k: int| 0 <= k < b.len() && (#[trigger] b[k]) is Acquire implies held_after(b, k)
        =~= Set::<usize>::empty() by {
        assert(k == 0 || k == 4);
    }
}

fn release_then_swap_block_vec(
    first: usize,
    second: usize,
    hold_us: u64,
    gap_us: u64,
    tail_us: u64,
) -> (v: Vec<Step>)
    ensures
        v@ == spec_release_then_swap_block(first, second, hold_us, gap_us, tail_us),
{
    let mut v: Vec<Step> = Vec::new();
    v.push(Step::Acquire(first, Mode::Exclusive));
    v.push(Step::Sleep(hold_us));
    v.push(Step::Release(first));
    v.push(Step::Sleep(gap_us));
    v.push(Step::Acquire(second, Mode::Exclusive));
    v.push(Step::Sleep(hold_us));
    v.push(Step::Release(second));
    v.push(Step::Sleep(tail_us));
    proof {
        assert(v@ =~= spec_release_then_swap_block(first, second, hold_us, gap_us, tail_us));
    }
    v
}

/// Build the two-role scenario whose roles run `release-then-swap` blocks
/// in opposite orders, `m` times each.
fn release_then_swap_scenario(
    name: &'static str,
    hold_us: u64,
    gap_us: u64,
    tail_us: u64,
    m: usize,
) -> (s: Scenario)
    ensures
        s.name == name,
        s.family is FalsePositive,
        s.truth is MustNotDeadlock,
        s.seed is None,
        s.n_resources == 2,
        s.n_barriers == 0,
        s.n_gates == 0,
        !s.shared_capable,
        s.roles@.len() == 2,
        s.roles@[0].steps@ == repeat_blocks(
            spec_release_then_swap_block(0, 1, hold_us, gap_us, tail_us),
            m as nat,
        ),
        s.roles@[1].steps@ == repeat_blocks(
            spec_release_then_swap_block(1, 0, hold_us, gap_us, tail_us),
            m as nat,
        ),
        forall|i: int| 0 <= i < 2 ==> acquires_only_when_empty((#[trigger] s.roles@[i]).steps@),
        s.wf(),
{
    let b0 = release_then_swap_block_vec(0, 1, hold_us, gap_us, tail_us);
    let b1 = release_then_swap_block_vec(1, 0, hold_us, gap_us, tail_us);
    let r0 = repeated_role(&b0, m);
    let r1 = repeated_role(&b1, m);
    let mut roles: Vec<Role> = Vec::new();
    roles.push(r0);
    roles.push(r1);
    let s = Scenario {
        name,
        family: Family::FalsePositive,
        truth: GroundTruth::MustNotDeadlock,
        seed: None,
        n_resources: 2,
        n_barriers: 0,
        n_gates: 0,
        shared_capable: false,
        roles,
    };
    proof {
        lemma_release_then_swap_block_props(0, 1, hold_us, gap_us, tail_us, 2);
        lemma_release_then_swap_block_props(1, 0, hold_us, gap_us, tail_us, 2);
        lemma_repeat_acquires_only_when_empty(
            spec_release_then_swap_block(0, 1, hold_us, gap_us, tail_us),
            m as nat,
        );
        lemma_repeat_acquires_only_when_empty(
            spec_release_then_swap_block(1, 0, hold_us, gap_us, tail_us),
            m as nat,
        );
        lemma_repeat_wf(spec_release_then_swap_block(0, 1, hold_us, gap_us, tail_us), m as nat, 2, 0, 0);
        lemma_repeat_wf(spec_release_then_swap_block(1, 0, hold_us, gap_us, tail_us), m as nat, 2, 0, 0);
    }
    s
}

/// Gate-guarded inversion: each role fully releases one resource before
/// taking the other, five times over, in opposite orders.
/// LAW (in `ensures`) — no hold-and-wait: every acquisition of every role
/// happens while that role holds nothing, so no circular wait can form.
pub fn gate_guarded_fp() -> (s: Scenario)
    ensures
        s.name@ == "gate_guarded_fp"@,
        s.wf(),
        s.truth is MustNotDeadlock,
        s.roles@.len() == 2,
        s.roles@[0].steps@ == repeat_blocks(spec_release_then_swap_block(0, 1, 20000, 10000, 30000), 5),
        s.roles@[1].steps@ == repeat_blocks(spec_release_then_swap_block(1, 0, 20000, 10000, 30000), 5),
        forall|i: int| 0 <= i < 2 ==> acquires_only_when_empty((#[trigger] s.roles@[i]).steps@),
{
    release_then_swap_scenario("gate_guarded_fp", 20000, 10000, 30000, 5)
}

/// Lock-free interval: both roles release their first resource and idle
/// past a fixed safety margin before the second acquisition, ten times
/// over, in opposite orders.
/// LAW (in `ensures`) — no hold-and-wait: every acquisition of every role
/// happens while that role holds nothing.
pub fn lock_free_interval_fp() -> (s: Scenario)
    ensures
        s.name@ == "lock_free_interval_fp"@,
        s.wf(),
        s.truth is MustNotDeadlock,
        s.roles@.len() == 2,
        s.roles@[0].steps@ == repeat_blocks(spec_release_then_swap_block(0, 1, 10000, 50000, 20000), 10),
        s.roles@[1].steps@ == repeat_blocks(spec_release_then_swap_block(1, 0, 10000, 50000, 20000), 10),
        forall|i: int| 0 <= i < 2 ==> acquires_only_when_empty((#[trigger] s.roles@[i]).steps@),
{
    release_then_swap_scenario("lock_free_interval_fp", 10000, 50000, 20000, 10)
}

/// Loop body of one producer or consumer: take the queue lock, work, put it
/// back, idle.
pub open spec fn spec_queue_block(pause_us: u64) -> Seq<Step> {
    seq![Step::Acquire(0, Mode::Exclusive), Step::Release(0), Step::Sleep(pause_us)]
}

proof fn lemma_queue_block_props(pause_us: u64)
    ensures
        acquires_only_when_empty(spec_queue_block(pause_us)),
        held_after(spec_queue_block(pause_us), 3) =~= Set::<usize>::empty(),
        forall|j: int| 0 <= j < 3 ==> step_wf(#[trigger] spec_queue_block(pause_us)[j], 1, 0, 0),
{
    let b = spec_queue_block(pause_us);
    assert(held_after(b, 0) =~= Set::<usize>::empty());
    assert(held_after(b, 1) =~= Set::<usize>::empty().insert(0));
    assert(held_after(b, 2) =~= Set::<usize>::empty());
    assert(held_after(b, 3) =~= Set::<usize>::empty());
    assert forall|k: int| 0 <= k < b.len() && (#[trigger] b[k]) is Acquire implies held_after(b, k)
        =~= Set::<usize>::empty() by {
        assert(k == 0);
    }
}

/// Producer-consumer: eight roles share one queue lock, each taking and
/// releasing it a hundred times — one-way data flow, one resource, no
/// ordering conflict at all.
/// LAW (in `ensures`) — no hold-and-wait: every acquisition of every role
/// happens while that role holds nothing.
pub fn producer_consumer_fp() -> (s: Scenario)
    ensures
        s.name@ == "producer_consumer_fp"@,
        s.wf(),
        s.truth is MustNotDeadlock,
        s.roles@.len() == 8,
        forall|i: int|
            0 <= i < 8 ==> (#[trigger] s.roles@[i]).steps@ == repeat_blocks(
                spec_queue_block(5000),
                100,
            ),
        forall|i: int| 0 <= i < 8 ==> acquires_only_when_empty((#[trigger] s.roles@[i]).steps@),
{
    let mut roles: Vec<Role> = Vec::new();
    let block = {
        let mut v: Vec<Step> = Vec::new();
        v.push(Step::Acquire(0, Mode::Exclusive));
        v.push(Step::Release(0));
        v.push(Step::Sleep(5000));
        proof {
            assert(v@ =~= spec_queue_block(5000));
        }
        v
    };
    let mut i: usize = 0;
    while i < 8
        invariant
            0 <= i <= 8,
            block@ == spec_queue_block(5000),
            roles@.len() == i,
            forall|j: int|
                0 <= j < i ==> (#[trigger] roles@[j]).steps@ == repeat_blocks(
                    spec_queue_block(5000),
                    100,
                ),
        decreases 8 - i,
    {
        let r = repeated_role(&block, 100);
        roles.push(r);
        i = i + 1;
    }
    let s = Scenario {
        name: "producer_consumer_fp",
        family: Family::FalsePositive,
        truth: GroundTruth::MustNotDeadlock,
        seed: None,
        n_resources: 1,
        n_barriers: 0,
        n_gates: 0,
        shared_capable: false,
        roles,
    };
    proof {
        lemma_queue_block_props(5000);
        lemma_repeat_acquires_only_when_empty(spec_queue_block(5000), 100);
        lemma_repeat_wf(spec_queue_block(5000), 100, 1, 0, 0);
    }
    s
}

/// Loop body that climbs three resources in ascending index order and
/// releases them in reverse.
pub open spec fn spec_triple_chain_block(base: usize, mode: Mode) -> Seq<Step> {
    seq![
        Step::Acquire(base, mode),
        Step::Sleep(50000),
        Step::Acquire((base + 1) as usize, mode),
        Step::Sleep(50000),
        Step::Acquire((base + 2) as usize, mode),
        Step::Sleep(50000),
        Step::Release((base + 2) as usize),
        Step::Release((base + 1) as usize),
        Step::Release(base),
    ]
}

proof fn lemma_triple_chain_block_props(base: usize, mode: Mode, nr: int)
    requires
        base + 2 < nr,
        nr <= usize::MAX,
    ensures
        hierarchical(spec_triple_chain_block(base, mode)),
        held_after(spec_triple_chain_block(base, mode), 9) =~= Set::<usize>::empty(),
        forall|j: int|
            0 <= j < 9 ==> step_wf(#[trigger] spec_triple_chain_block(base, mode)[j], nr, 0, 0),
        forall|res: usize|
            resources_of(spec_triple_chain_block(base, mode)).contains(res) ==> base <= res < base
                + 3,
{
    let b = spec_triple_chain_block(base, mode);
    assert(held_after(b, 0) =~= Set::<usize>::empty());
    assert(held_after(b, 1) =~= Set::<usize>::empty().insert(base));
    assert(held_after(b, 2) =~= held_after(b, 1));
    assert(held_after(b, 3) =~= held_after(b, 1).insert((base + 1) as usize));
    assert(held_after(b, 4) =~= held_after(b, 3));
    assert(held_after(b, 5) =~= held_after(b, 3).insert((base + 2) as usize));
    assert(held_after(b, 6) =~= held_after(b, 5));
    assert(held_after(b, 7) =~= held_after(b, 3));
    assert(held_after(b, 8) =~= held_after(b, 1));
    assert(held_after(b, 9) =~= Set::<usize>::empty());
    assert forall|k: int, h: usize|
        0 <= k < b.len() && b[k] is Acquire && #[trigger] held_after(b, k).contains(h) implies h
        < b[k]->Acquire_0 by {
        assert(k == 0 || k == 2 || k == 4);
    }
    assert forall|res: usize| resources_of(b).contains(res) implies base <= res < base + 3 by {
        let k = choose|k: int|
            0 <= k < b.len() && (#[trigger] b[k]) is Acquire && b[k]->Acquire_0 == res;
        assert(k == 0 || k == 2 || k == 4);
    }
}

fn triple_chain_block_vec(base: usize, mode: Mode) -> (v: Vec<Step>)
    requires
        base + 2 <= usize::MAX,
    ensures
        v@ == spec_triple_chain_block(base, mode),
{
    let mut v: Vec<Step> = Vec::new();
    v.push(Step::Acquire(base, mode));
    v.push(Step::Sleep(50000));
    v.push(Step::Acquire(base + 1, mode));
    v.push(Step::Sleep(50000));
    v.push(Step::Acquire(base + 2, mode));
    v.push(Step::Sleep(50000));
    v.push(Step::Release(base + 2));
    v.push(Step::Release(base + 1));
    v.push(Step::Release(base));
    proof {
        assert(v@ =~= spec_triple_chain_block(base, mode));
    }
    v
}

/// Thread-local hierarchy: two groups of three roles; one group climbs
/// resources 0–2, the other climbs 3–5, fifty times each.  The groups
/// share no resource at all.
/// LAWS (in `ensures`) — every role is hierarchical (it only acquires
/// resources above everything it holds), and the two groups' resource sets
/// are disjoint: the first group touches only indices below three, the
/// second only three and above.
pub fn thread_local_hierarchy_fp() -> (s: Scenario)
    ensures
        s.name@ == "thread_local_hierarchy_fp"@,
        s.wf(),
        s.truth is MustNotDeadlock,
        s.roles@.len() == 6,
        forall|i: int|
            0 <= i < 6 ==> (#[trigger] s.roles@[i]).steps@ == repeat_blocks(
                spec_triple_chain_block(if i < 3 { 0 } else { 3 }, Mode::Exclusive),
                50,
            ),
        forall|i: int| 0 <= i < 6 ==> hierarchical((#[trigger] s.roles@[i]).steps@),
        forall|i: int, res: usize|
            0 <= i < 3 && #[trigger] resources_of(s.roles@[i].steps@).contains(res) ==> res < 3,
        forall|i: int, res: usize|
            3 <= i < 6 && #[trigger] resources_of(s.roles@[i].steps@).contains(res) ==> 3 <= res,
{
    let b_low = triple_chain_block_vec(0, Mode::Exclusive);
    let b_high = triple_chain_block_vec(3, Mode::Exclusive);
    let mut roles: Vec<Role> = Vec::new();
    let mut i: usize = 0;
    while i < 6
        invariant
            0 <= i <= 6,
            b_low@ == spec_triple_chain_block(0, Mode::Exclusive),
            b_high@ == spec_triple_chain_block(3, Mode::Exclusive),
            roles@.len() == i,
            forall|j: int|
                0 <= j < i ==> (#[trigger] roles@[j]).steps@ == repeat_blocks(
                    spec_triple_chain_block(if j < 3 { 0 } else { 3 }, Mode::Exclusive),
                    50,
                ),
        decreases 6 - i,
    {
        let r = if i < 3 {
            repeated_role(&b_low, 50)
        } else {
            repeated_role(&b_high, 50)
        };
        roles.push(r);
        i = i + 1;
    }
    let s = Scenario {
        name: "thread_local_hierarchy_fp",
        family: Family::FalsePositive,
        truth: GroundTruth::MustNotDeadlock,
        seed: None,
        n_resources: 6,
        n_barriers: 0,
        n_gates: 0,
        shared_capable: false,
        roles,
    };
    proof {
        lemma_triple_chain_block_props(0, Mode::Exclusive, 6);
        lemma_triple_chain_block_props(3, Mode::Exclusive, 6);
        lemma_repeat_hierarchical(spec_triple_chain_block(0, Mode::Exclusive), 50);
        lemma_repeat_hierarchical(spec_triple_chain_block(3, Mode::Exclusive), 50);
        lemma_repeat_wf(spec_triple_chain_block(0, Mode::Exclusive), 50, 6, 0, 0);
        lemma_repeat_wf(spec_triple_chain_block(3, Mode::Exclusive), 50, 6, 0, 0);
        lemma_repeat_resources(spec_triple_chain_block(0, Mode::Exclusive), 50);
        lemma_repeat_resources(spec_triple_chain_block(3, Mode::Exclusive), 50);
    }
    s
}

/// Loop body of a reader chaining three resources in shared mode.
pub open spec fn spec_read_chain3_block(a: usize, b: usize, c: usize) -> Seq<Step> {
    seq![
        Step::Acquire(a, Mode::Shared),
        Step::Acquire(b, Mode::Shared),
        Step::Acquire(c, Mode::Shared),
        Step::Sleep(10000),
        Step::Release(c),
        Step::Release(b),
        Step::Release(a),
        Step::Sleep(20000),
    ]
}

/// Loop body of a reader chaining two resources in shared mode.
pub open spec fn spec_read_chain2_block(a: usize, c: usize) -> Seq<Step> {
    seq![
        Step::Acquire(a, Mode::Shared),
        Step::Acquire(c, Mode::Shared),
        Step::Sleep(10000),
        Step::Release(c),
        Step::Release(a),
        Step::Sleep(20000),
    ]
}

/// Loop body of the rare writer: one exclusive hold, nothing nested.
pub open spec fn spec_writer_block() -> Seq<Step> {
    seq![Step::Sleep(100000), Step::Acquire(0, Mode::Exclusive), Step::Release(0)]
}

/// The acquisition pattern of reader `t`: three rotations of the full
/// chain, and a two-resource skip, round robin.
pub open spec fn spec_reader_block(t: int) -> Seq<Step> {
    if t % 4 == 0 {
        spec_read_chain3_block(0, 1, 2)
    } else if t % 4 == 1 {
        spec_read_chain3_block(2, 1, 0)
    } else if t % 4 == 2 {
        spec_read_chain3_block(1, 0, 2)
    } else {
        spec_read_chain2_block(0, 2)
    }
}

proof fn lemma_read_chain3_block_props(a: usize, b: usize, c: usize, nr: int)
    requires
        a < nr,
        b < nr,
        c < nr,
    ensures
        nested_acquires_shared(spec_read_chain3_block(a, b, c)),
        held_after(spec_read_chain3_block(a, b, c), 8) =~= Set::<usize>::empty(),
        forall|j: int|
            0 <= j < 8 ==> step_wf(#[trigger] spec_read_chain3_block(a, b, c)[j], nr, 0, 0),
{
    let s = spec_read_chain3_block(a, b, c);
    assert(held_after(s, 0) =~= Set::<usize>::empty());
    assert(held_after(s, 1) =~= Set::<usize>::empty().insert(a));
    assert(held_after(s, 2) =~= held_after(s, 1).insert(b));
    assert(held_after(s, 3) =~= held_after(s, 2).insert(c));
    assert(held_after(s, 4) =~= held_after(s, 3));
    assert(held_after(s, 5) =~= held_after(s, 3).remove(c));
    assert(held_after(s, 6) =~= held_after(s, 5).remove(b));
    assert(held_after(s, 7) =~= held_after(s, 6).remove(a));
    assert(held_after(s, 8) =~= held_after(s, 7));
    assert(held_after(s, 8) =~= Set::<usize>::empty());
}

proof fn lemma_read_chain2_block_props(a: usize, c: usize, nr: int)
    requires
        a < nr,
        c < nr,
    ensures
        nested_acquires_shared(spec_read_chain2_block(a, c)),
        held_after(spec_read_chain2_block(a, c), 6) =~= Set::<usize>::empty(),
        forall|j: int| 0 <= j < 6 ==> step_wf(#[trigger] spec_read_chain2_block(a, c)[j], nr, 0, 0),
{
    let s = spec_read_chain2_block(a, c);
    assert(held_after(s, 0) =~= Set::<usize>::empty());
    assert(held_after(s, 1) =~= Set::<usize>::empty().insert(a));
    assert(held_after(s, 2) =~= held_after(s, 1).insert(c));
    assert(held_after(s, 3) =~= held_after(s, 2));
    assert(held_after(s, 4) =~= held_after(s, 2).remove(c));
    assert(held_after(s, 5) =~= held_after(s, 4).remove(a));
    assert(held_after(s, 6) =~= held_after(s, 5));
    assert(held_after(s, 6) =~= Set::<usize>::empty());
}

proof fn lemma_writer_block_props()
    ensures
        acquires_only_when_empty(spec_writer_block()),
        held_after(spec_writer_block(), 3) =~= Set::<usize>::empty(),
        forall|j: int| 0 <= j < 3 ==> step_wf(#[trigger] spec_writer_block()[j], 1, 0, 0),
{
    let s = spec_writer_block();
    assert(held_after(s, 0) =~= Set::<usize>::empty());
    assert(held_after(s, 1) =~= Set::<usize>::empty());
    assert(held_after(s, 2) =~= Set::<usize>::empty().insert(0));
    assert(held_after(s, 3) =~= Set::<usize>::empty());
    assert forall|k: int| 0 <= k < s.len() && (#[trigger] s[k]) is Acquire implies held_after(s, k)
        =~= Set::<usize>::empty() by {
        assert(k == 1);
    }
}

fn read_chain3_block_vec(a: usize, b: usize, c: usize) -> (v: Vec<Step>)
    ensures
        v@ == spec_read_chain3_block(a, b, c),
{
    let mut v: Vec<Step> = Vec::new();
    v.push(Step::Acquire(a, Mode::Shared));
    v.push(Step::Acquire(b, Mode::Shared));
    v.push(Step::Acquire(c, Mode::Shared));
    v.push(Step::Sleep(10000));
    v.push(Step::Release(c));
    v.push(Step::Release(b));
    v.push(Step::Release(a));
    v.push(Step::Sleep(20000));
    proof {
        assert(v@ =~= spec_read_chain3_block(a, b, c));
    }
    v
}

/// Read-dominated: eight readers chain the three resources in conflicting
/// orders, but every nested acquisition is shared, and shared holders never
/// mutually block; the rare writer takes one resource with empty hands.
/// LAWS (in `ensures`) — every reader's acquisitions are shared-mode
/// whenever something is already held; the writer acquires only from empty
/// hands.
pub fn read_dominated_fp() -> (s: Scenario)
    ensures
        s.name@ == "read_dominated_fp"@,
        s.wf(),
        s.truth is MustNotDeadlock,
        s.shared_capable,
        s.roles@.len() == 9,
        forall|i: int|
            0 <= i < 8 ==> (#[trigger] s.roles@[i]).steps@ == repeat_blocks(
                spec_reader_block(i),
                50,
            ),
        s.roles@[8].steps@ == repeat_blocks(spec_writer_block(), 10),
        forall|i: int| 0 <= i < 8 ==> nested_acquires_shared((#[trigger] s.roles@[i]).steps@),
        acquires_only_when_empty(s.roles@[8].steps@),
{
    let mut roles: Vec<Role> = Vec::new();
    let mut i: usize = 0;
    while i < 8
        invariant
            0 <= i <= 8,
            roles@.len() == i,
            forall|j: int|
                0 <= j < i ==> (#[trigger] roles@[j]).steps@ == repeat_blocks(
                    spec_reader_block(j),
                    50,
                ),
        decreases 8 - i,
    {
        let block = if i % 4 == 0 {
            read_chain3_block_vec(0, 1, 2)
        } else if i % 4 == 1 {
            read_chain3_block_vec(2, 1, 0)
        } else if i % 4 == 2 {
            read_chain3_block_vec(1, 0, 2)
        } else {
            let mut v: Vec<Step> = Vec::new();
            v.push(Step::Acquire(0, Mode::Shared));
            v.push(Step::Acquire(2, Mode::Shared));
            v.push(Step::Sleep(10000));
            v.push(Step::Release(2));
            v.push(Step::Release(0));
            v.push(Step::Sleep(20000));
            proof {
                assert(v@ =~= spec_read_chain2_block(0, 2));
            }
            v
        };
        proof {
            assert(block@ == spec_reader_block(i as int));
        }
        let r = repeated_role(&block, 50);
        roles.push(r);
        i = i + 1;
    }
    let writer_block = {
        let mut v: Vec<Step> = Vec::new();
        v.push(Step::Sleep(100000));
        v.push(Step::Acquire(0, Mode::Exclusive));
        v.push(Step::Release(0));
        proof {
            assert(v@ =~= spec_writer_block());
        }
        v
    };
    let w = repeated_role(&writer_block, 10);
    roles.push(w);
    let s = Scenario {
        name: "read_dominated_fp",
        family: Family::FalsePositive,
        truth: GroundTruth::MustNotDeadlock,
        seed: None,
        n_resources: 3,
        n_barriers: 0,
        n_gates: 0,
        shared_capable: true,
        roles,
    };
    proof {
        lemma_read_chain3_block_props(0, 1, 2, 3);
        lemma_read_chain3_block_props(2, 1, 0, 3);
        lemma_read_chain3_block_props(1, 0, 2, 3);
        lemma_read_chain2_block_props(0, 2, 3);
        lemma_writer_block_props();
        assert forall|i2: int| 0 <= i2 < 8 implies nested_acquires_shared(
            (#[trigger] s.roles@[i2]).steps@,
        ) by {
            lemma_repeat_nested_shared(spec_reader_block(i2), 50);
        }
        lemma_repeat_acquires_only_when_empty(spec_writer_block(), 10);
        assert forall|ri: int| 0 <= ri < s.roles@.len() implies role_wf(
            #[trigger] s.roles@[ri],
            3,
            0,
            0,
        ) by {
            if ri < 8 {
                lemma_repeat_wf(spec_reader_block(ri), 50, 3, 0, 0);
            } else {
                lemma_repeat_wf(spec_writer_block(), 10, 3, 0, 0);
            }
        }
    }
    s
}

/// The four-resource climb of the first hierarchical role.
pub open spec fn spec_hier_full_role() -> Seq<Step> {
    seq![
        Step::Acquire(0, Mode::Exclusive),
        Step::Sleep(50000),
        Step::Acquire(1, Mode::Exclusive),
        Step::Sleep(50000),
        Step::Acquire(2, Mode::Exclusive),
        Step::Sleep(50000),
        Step::Acquire(3, Mode::Exclusive),
        Step::Sleep(100000),
        Step::Release(3),
        Step::Release(2),
        Step::Release(1),
        Step::Release(0),
    ]
}

/// The skipping climb of the second hierarchical role (0, 2, 3).
pub open spec fn spec_hier_skip_role() -> Seq<Step> {
    seq![
        Step::Sleep(25000),
        Step::Acquire(0, Mode::Exclusive),
        Step::Sleep(50000),
        Step::Acquire(2, Mode::Exclusive),
        Step::Sleep(50000),
        Step::Acquire(3, Mode::Exclusive),
        Step::Sleep(100000),
        Step::Release(3),
        Step::Release(2),
        Step::Release(0),
    ]
}

/// The short climb of the third hierarchical role (1, 3).
pub open spec fn spec_hier_pair_role() -> Seq<Step> {
    seq![
        Step::Sleep(75000),
        Step::Acquire(1, Mode::Exclusive),
        Step::Sleep(50000),
        Step::Acquire(3, Mode::Exclusive),
        Step::Sleep(100000),
        Step::Release(3),
        Step::Release(1),
    ]
}

/// Loop body of the fourth role: single-lock operations only.
pub open spec fn spec_hier_single_block() -> Seq<Step> {
    seq![
        Step::Sleep(30000),
        Step::Acquire(1, Mode::Exclusive),
        Step::Sleep(20000),
        Step::Release(1),
    ]
}

proof fn lemma_hier_roles_props()
    ensures
        hierarchical(spec_hier_full_role()),
        hierarchical(spec_hier_skip_role()),
        hierarchical(spec_hier_pair_role()),
        hierarchical(spec_hier_single_block()),
        held_after(spec_hier_single_block(), 4) =~= Set::<usize>::empty(),
        forall|j: int| 0 <= j < 12 ==> step_wf(#[trigger] spec_hier_full_role()[j], 4, 0, 0),
        forall|j: int| 0 <= j < 10 ==> step_wf(#[trigger] spec_hier_skip_role()[j], 4, 0, 0),
        forall|j: int| 0 <= j < 7 ==> step_wf(#[trigger] spec_hier_pair_role()[j], 4, 0, 0),
        forall|j: int| 0 <= j < 4 ==> step_wf(#[trigger] spec_hier_single_block()[j], 4, 0, 0),
{
    let a = spec_hier_full_role();
    assert(held_after(a, 0) =~= Set::<usize>::empty());
    assert(held_after(a, 1) =~= Set::<usize>::empty().insert(0));
    assert(held_after(a, 2) =~= held_after(a, 1));
    assert(held_after(a, 3) =~= held_after(a, 1).insert(1));
    assert(held_after(a, 4) =~= held_after(a, 3));
    assert(held_after(a, 5) =~= held_after(a, 3).insert(2));
    assert(held_after(a, 6) =~= held_after(a, 5));
    assert forall|k: int, h: usize|
        0 <= k < a.len() && a[k] is Acquire && #[trigger] held_after(a, k).contains(h) implies h
        < a[k]->Acquire_0 by {
        assert(k == 0 || k == 2 || k == 4 || k == 6);
    }
    let b = spec_hier_skip_role();
    assert(held_after(b, 0) =~= Set::<usize>::empty());
    assert(held_after(b, 1) =~= Set::<usize>::empty());
    assert(held_after(b, 2) =~= Set::<usize>::empty().insert(0));
    assert(held_after(b, 3) =~= held_after(b, 2));
    assert(held_after(b, 4) =~= held_after(b, 2).insert(2));
    assert(held_after(b, 5) =~= held_after(b, 4));
    assert forall|k: int, h: usize|
        0 <= k < b.len() && b[k] is Acquire && #[trigger] held_after(b, k).contains(h) implies h
        < b[k]->Acquire_0 by {
        assert(k == 1 || k == 3 || k == 5);
    }
    let c = spec_hier_pair_role();
    assert(held_after(c, 0) =~= Set::<usize>::empty());
    assert(held_after(c, 1) =~= Set::<usize>::empty());
    assert(held_after(c, 2) =~= Set::<usize>::empty().insert(1));
    assert(held_after(c, 3) =~= held_after(c, 2));
    assert forall|k: int, h: usize|
        0 <= k < c.len() && c[k] is Acquire && #[trigger] held_after(c, k).contains(h) implies h
        < c[k]->Acquire_0 by {
        assert(k == 1 || k == 3);
    }
    let d = spec_hier_single_block();
    assert(held_after(d, 0) =~= Set::<usize>::empty());
    assert(held_after(d, 1) =~= Set::<usize>::empty());
    assert(held_after(d, 2) =~= Set::<usize>::empty().insert(1));
    assert(held_after(d, 3) =~= held_after(d, 2));
    assert(held_after(d, 4) =~= Set::<usize>::empty());
    assert forall|k: int, h: usize|
        0 <= k < d.len() && d[k] is Acquire && #[trigger] held_after(d, k).contains(h) implies h
        < d[k]->Acquire_0 by {
        assert(k == 1);
    }
}

/// Four hierarchical roles over four resources: every role acquires in
/// ascending index order (possibly skipping), one role loops on a single
/// resource.
/// LAW (in `ensures`) — every role is hierarchical: whenever it acquires a
/// resource, everything it already holds has a smaller index, so the
/// wait-for graph can carry no cycle.
pub fn four_hier_fp() -> (s: Scenario)
    ensures
        s.name@ == "four_hier_fp"@,
        s.wf(),
        s.truth is MustNotDeadlock,
        s.roles@.len() == 4,
        s.roles@[0].steps@ == spec_hier_full_role(),
        s.roles@[1].steps@ == spec_hier_skip_role(),
        s.roles@[2].steps@ == spec_hier_pair_role(),
        s.roles@[3].steps@ == repeat_blocks(spec_hier_single_block(), 5),
        forall|i: int| 0 <= i < 4 ==> hierarchical((#[trigger] s.roles@[i]).steps@),
{
    let mut v0: Vec<Step> = Vec::new();
    v0.push(Step::Acquire(0, Mode::Exclusive));
    v0.push(Step::Sleep(50000));
    v0.push(Step::Acquire(1, Mode::Exclusive));
    v0.push(Step::Sleep(50000));
    v0.push(Step::Acquire(2, Mode::Exclusive));
    v0.push(Step::Sleep(50000));
    v0.push(Step::Acquire(3, Mode::Exclusive));
    v0.push(Step::Sleep(100000));
    v0.push(Step::Release(3));
    v0.push(Step::Release(2));
    v0.push(Step::Release(1));
    v0.push(Step::Release(0));
    proof {
        assert(v0@ =~= spec_hier_full_role());
    }
    let mut v1: Vec<Step> = Vec::new();
    v1.push(Step::Sleep(25000));
    v1.push(Step::Acquire(0, Mode::Exclusive));
    v1.push(Step::Sleep(50000));
    v1.push(Step::Acquire(2, Mode::Exclusive));
    v1.push(Step::Sleep(50000));
    v1.push(Step::Acquire(3, Mode::Exclusive));
    v1.push(Step::Sleep(100000));
    v1.push(Step::Release(3));
    v1.push(Step::Release(2));
    v1.push(Step::Release(0));
    proof {
        assert(v1@ =~= spec_hier_skip_role());
    }
    let mut v2: Vec<Step> = Vec::new();
    v2.push(Step::Sleep(75000));
    v2.push(Step::Acquire(1, Mode::Exclusive));
    v2.push(Step::Sleep(50000));
    v2.push(Step::Acquire(3, Mode::Exclusive));
    v2.push(Step::Sleep(100000));
    v2.push(Step::Release(3));
    v2.push(Step::Release(1));
    proof {
        assert(v2@ =~= spec_hier_pair_role());
    }
    let mut v3: Vec<Step> = Vec::new();
    v3.push(Step::Sleep(30000));
    v3.push(Step::Acquire(1, Mode::Exclusive));
    v3.push(Step::Sleep(20000));
    v3.push(Step::Release(1));
    proof {
        assert(v3@ =~= spec_hier_single_block());
    }
    let r3 = repeated_role(&v3, 5);
    let mut roles: Vec<Role> = Vec::new();
    roles.push(Role { steps: v0 });
    roles.push(Role { steps: v1 });
    roles.push(Role { steps: v2 });
    roles.push(r3);
    let s = Scenario {
        name: "four_hier_fp",
        family: Family::FalsePositive,
        truth: GroundTruth::MustNotDeadlock,
        seed: None,
        n_resources: 4,
        n_barriers: 0,
        n_gates: 0,
        shared_capable: false,
        roles,
    };
    proof {
        lemma_hier_roles_props();
        lemma_repeat_hierarchical(spec_hier_single_block(), 5);
        lemma_repeat_wf(spec_hier_single_block(), 5, 4, 0, 0);
    }
    s
}

/// The role that takes both resources in the forward order, lets both go,
/// and at last signals its peer through the shared counter.
pub open spec fn spec_inversion_signal_role() -> Seq<Step> {
    seq![
        Step::Acquire(0, Mode::Exclusive),
        Step::Sleep(10000),
        Step::Acquire(1, Mode::Exclusive),
        Step::Sleep(10000),
        Step::Release(1),
        Step::Release(0),
        Step::StoreGate(1),
    ]
}

/// The role that waits for the completion signal before beginning its
/// reversed order.
pub open spec fn spec_inversion_waiter_role() -> Seq<Step> {
    seq![
        Step::AwaitGate(1),
        Step::Acquire(1, Mode::Exclusive),
        Step::Sleep(10000),
        Step::Acquire(0, Mode::Exclusive),
        Step::Sleep(10000),
        Step::Release(0),
        Step::Release(1),
    ]
}

/// Sequential-release inversion: the first role fully releases both
/// resources before the second role begins its reversed order, gated by an
/// explicit completion signal.  A lock-order graph shows the cycle
/// 0→1 / 1→0; the wait-for graph never can, because the two orders never
/// overlap in time.
/// LAWS (in `ensures`) — the first role holds nothing once it signals;
/// the second role's program begins by waiting for that signal, and all
/// of its acquisitions come later.
pub fn lock_order_inversion_fp() -> (s: Scenario)
    ensures
        s.name@ == "lock_order_inversion_fp"@,
        s.wf(),
        s.truth is MustNotDeadlock,
        s.roles@.len() == 2,
        s.roles@[0].steps@ == spec_inversion_signal_role(),
        s.roles@[1].steps@ == spec_inversion_waiter_role(),
        spec_inversion_signal_role()[6] == Step::StoreGate(1),
        held_after(spec_inversion_signal_role(), 6) =~= Set::<usize>::empty(),
        held_after(spec_inversion_signal_role(), 7) =~= Set::<usize>::empty(),
        spec_inversion_waiter_role()[0] == Step::AwaitGate(1),
        forall|k: int|
            0 <= k < 7 && (#[trigger] spec_inversion_waiter_role()[k]) is Acquire ==> k >= 1,
        held_after(spec_inversion_waiter_role(), 7) =~= Set::<usize>::empty(),
{
    let mut v0: Vec<Step> = Vec::new();
    v0.push(Step::Acquire(0, Mode::Exclusive));
    v0.push(Step::Sleep(10000));
    v0.push(Step::Acquire(1, Mode::Exclusive));
    v0.push(Step::Sleep(10000));
    v0.push(Step::Release(1));
    v0.push(Step::Release(0));
    v0.push(Step::StoreGate(1));
    proof {
        assert(v0@ =~= spec_inversion_signal_role());
    }
    let mut v1: Vec<Step> = Vec::new();
    v1.push(Step::AwaitGate(1));
    v1.push(Step::Acquire(1, Mode::Exclusive));
    v1.push(Step::Sleep(10000));
    v1.push(Step::Acquire(0, Mode::Exclusive));
    v1.push(Step::Sleep(10000));
    v1.push(Step::Release(0));
    v1.push(Step::Release(1));
    proof {
        assert(v1@ =~= spec_inversion_waiter_role());
    }
    let mut roles: Vec<Role> = Vec::new();
    roles.push(Role { steps: v0 });
    roles.push(Role { steps: v1 });
    let s = Scenario {
        name: "lock_order_inversion_fp",
        family: Family::FalsePositive,
        truth: GroundTruth::MustNotDeadlock,
        seed: None,
        n_resources: 2,
        n_barriers: 0,
        n_gates: 2,
        shared_capable: false,
        roles,
    };
    proof {
        let p = spec_inversion_signal_role();
        assert(held_after(p, 0) =~= Set::<usize>::empty());
        assert(held_after(p, 1) =~= Set::<usize>::empty().insert(0));
        assert(held_after(p, 2) =~= held_after(p, 1));
        assert(held_after(p, 3) =~= held_after(p, 1).insert(1));
        assert(held_after(p, 4) =~= held_after(p, 3));
        assert(held_after(p, 5) =~= held_after(p, 1));
        assert(held_after(p, 6) =~= Set::<usize>::empty());
        assert(held_after(p, 7) =~= Set::<usize>::empty());
        let q = spec_inversion_waiter_role();
        assert(held_after(q, 0) =~= Set::<usize>::empty());
        assert(held_after(q, 1) =~= Set::<usize>::empty());
        assert(held_after(q, 2) =~= Set::<usize>::empty().insert(1));
        assert(held_after(q, 3) =~= held_after(q, 2));
        assert(held_after(q, 4) =~= held_after(q, 2).insert(0));
        assert(held_after(q, 5) =~= held_after(q, 4));
        assert(held_after(q, 6) =~= held_after(q, 2));
        assert(held_after(q, 7) =~= Set::<usize>::empty());
    }
    s
}

/// Loop body of the forward half of the coordinator-gated pair: wait for
/// the token (gate value 0), run the forward order, hand the token over
/// (gate value 1).
pub open spec fn spec_cond_forward_block() -> Seq<Step> {
    seq![
        Step::AwaitGate(0),
        Step::Acquire(0, Mode::Exclusive),
        Step::Sleep(100000),
        Step::Acquire(1, Mode::Exclusive),
        Step::Sleep(100000),
        Step::Release(1),
        Step::Release(0),
        Step::StoreGate(1),
    ]
}

/// Loop body of the reverse half: wait for the token to come back (gate
/// value 1), run the reversed order, hand the token back (gate value 0).
pub open spec fn spec_cond_reverse_block() -> Seq<Step> {
    seq![
        Step::AwaitGate(1),
        Step::Acquire(1, Mode::Exclusive),
        Step::Sleep(100000),
        Step::Acquire(0, Mode::Exclusive),
        Step::Sleep(100000),
        Step::Release(0),
        Step::Release(1),
        Step::StoreGate(0),
    ]
}

proof fn lemma_cond_block_props()
    ensures
        held_after(spec_cond_forward_block(), 7) =~= Set::<usize>::empty(),
        held_after(spec_cond_forward_block(), 8) =~= Set::<usize>::empty(),
        held_after(spec_cond_reverse_block(), 7) =~= Set::<usize>::empty(),
        held_after(spec_cond_reverse_block(), 8) =~= Set::<usize>::empty(),
        forall|j: int| 0 <= j < 8 ==> step_wf(#[trigger] spec_cond_forward_block()[j], 2, 0, 2),
        forall|j: int| 0 <= j < 8 ==> step_wf(#[trigger] spec_cond_reverse_block()[j], 2, 0, 2),
{
    let f = spec_cond_forward_block();
    assert(held_after(f, 0) =~= Set::<usize>::empty());
    assert(held_after(f, 1) =~= Set::<usize>::empty());
    assert(held_after(f, 2) =~= Set::<usize>::empty().insert(0));
    assert(held_after(f, 3) =~= held_after(f, 2));
    assert(held_after(f, 4) =~= held_after(f, 2).insert(1));
    assert(held_after(f, 5) =~= held_after(f, 4));
    assert(held_after(f, 6) =~= held_after(f, 2));
    assert(held_after(f, 7) =~= Set::<usize>::empty());
    assert(held_after(f, 8) =~= Set::<usize>::empty());
    let r = spec_cond_reverse_block();
    assert(held_after(r, 0) =~= Set::<usize>::empty());
    assert(held_after(r, 1) =~= Set::<usize>::empty());
    assert(held_after(r, 2) =~= Set::<usize>::empty().insert(1));
    assert(held_after(r, 3) =~= held_after(r, 2));
    assert(held_after(r, 4) =~= held_after(r, 2).insert(0));
    assert(held_after(r, 5) =~= held_after(r, 4));
    assert(held_after(r, 6) =~= held_after(r, 2));
    assert(held_after(r, 7) =~= Set::<usize>::empty());
    assert(held_after(r, 8) =~= Set::<usize>::empty());
}

/// Coordinator-gated conflicting orders: one boolean token decides which
/// of the two lock orders is allowed to run at each moment.
/// Each role runs its order five times, handing the token over after each
/// round; the token starts with the forward role.
/// LAWS (in `ensures`) — each loop body begins by waiting for the token at
/// its own value and ends by storing the opposite value; each body holds
/// nothing when it hands the token over; and between wait and store no
/// other gate operation occurs, so the two conflicting orders are never
/// live at once.
pub fn conditional_locking_fp() -> (s: Scenario)
    ensures
        s.name@ == "conditional_locking_fp"@,
        s.wf(),
        s.truth is MustNotDeadlock,
        s.roles@.len() == 2,
        s.roles@[0].steps@ == repeat_blocks(spec_cond_forward_block(), 5),
        s.roles@[1].steps@ == repeat_blocks(spec_cond_reverse_block(), 5),
        spec_cond_forward_block()[0] == Step::AwaitGate(0),
        spec_cond_forward_block()[7] == Step::StoreGate(1),
        spec_cond_reverse_block()[0] == Step::AwaitGate(1),
        spec_cond_reverse_block()[7] == Step::StoreGate(0),
        held_after(spec_cond_forward_block(), 7) =~= Set::<usize>::empty(),
        held_after(spec_cond_reverse_block(), 7) =~= Set::<usize>::empty(),
        forall|k: int|
            0 < k < 7 ==> !((#[trigger] spec_cond_forward_block()[k]) is AwaitGate) && !(
            spec_cond_forward_block()[k] is StoreGate),
        forall|k: int|
            0 < k < 7 ==> !((#[trigger] spec_cond_reverse_block()[k]) is AwaitGate) && !(
            spec_cond_reverse_block()[k] is StoreGate),
{
    let mut f: Vec<Step> = Vec::new();
    f.push(Step::AwaitGate(0));
    f.push(Step::Acquire(0, Mode::Exclusive));
    f.push(Step::Sleep(100000));
    f.push(Step::Acquire(1, Mode::Exclusive));
    f.push(Step::Sleep(100000));
    f.push(Step::Release(1));
    f.push(Step::Release(0));
    f.push(Step::StoreGate(1));
    proof {
        assert(f@ =~= spec_cond_forward_block());
    }
    let mut r: Vec<Step> = Vec::new();
    r.push(Step::AwaitGate(1));
    r.push(Step::Acquire(1, Mode::Exclusive));
    r.push(Step::Sleep(100000));
    r.push(Step::Acquire(0, Mode::Exclusive));
    r.push(Step::Sleep(100000));
    r.push(Step::Release(0));
    r.push(Step::Release(1));
    r.push(Step::StoreGate(0));
    proof {
        assert(r@ =~= spec_cond_reverse_block());
    }
    let r0 = repeated_role(&f, 5);
    let r1 = repeated_role(&r, 5);
    let mut roles: Vec<Role> = Vec::new();
    roles.push(r0);
    roles.push(r1);
    let s = Scenario {
        name: "conditional_locking_fp",
        family: Family::FalsePositive,
        truth: GroundTruth::MustNotDeadlock,
        seed: None,
        n_resources: 2,
        n_barriers: 0,
        n_gates: 2,
        shared_capable: false,
        roles,
    };
    proof {
        lemma_cond_block_props();
        lemma_repeat_wf(spec_cond_forward_block(), 5, 2, 0, 2);
        lemma_repeat_wf(spec_cond_reverse_block(), 5, 2, 0, 2);
    }
    s
}

/// The phase-`t` role of the rotated ring: wait for the global phase
/// counter to reach `t`, run one rotation of the three-resource pattern,
/// and advance the counter (the last phase does not advance).
pub open spec fn spec_phase_role(t: usize, a: usize, b: usize, c: usize, advance: bool) -> Seq<
    Step,
> {
    seq![
        Step::AwaitGate(t),
        Step::Acquire(a, Mode::Exclusive),
        Step::Sleep(5000),
        Step::Acquire(b, Mode::Exclusive),
        Step::Sleep(5000),
        Step::Acquire(c, Mode::Exclusive),
        Step::Sleep(5000),
        Step::Release(c),
        Step::Release(b),
        Step::Release(a),
    ] + (if advance {
        seq![Step::StoreGate((t + 1) as usize)]
    } else {
        Seq::<Step>::empty()
    })
}

proof fn lemma_phase_role_props(t: usize, a: usize, b: usize, c: usize, advance: bool)
    requires
        t + 1 <= usize::MAX,
    ensures
        held_after(spec_phase_role(t, a, b, c, advance), 10) =~= Set::<usize>::empty(),
        held_after(
            spec_phase_role(t, a, b, c, advance),
            spec_phase_role(t, a, b, c, advance).len() as int,
        ) =~= Set::<usize>::empty(),
        spec_phase_role(t, a, b, c, advance)[0] == Step::AwaitGate(t),
        advance ==> spec_phase_role(t, a, b, c, advance)[10] == Step::StoreGate((t + 1) as usize),
        forall|k: int|
            0 < k < 10 ==> !((#[trigger] spec_phase_role(t, a, b, c, advance)[k]) is AwaitGate)
                && !(spec_phase_role(t, a, b, c, advance)[k] is StoreGate),
{
    let s = spec_phase_role(t, a, b, c, advance);
    assert(held_after(s, 0) =~= Set::<usize>::empty());
    assert(held_after(s, 1) =~= Set::<usize>::empty());
    assert(held_after(s, 2) =~= Set::<usize>::empty().insert(a));
    assert(held_after(s, 3) =~= held_after(s, 2));
    assert(held_after(s, 4) =~= held_after(s, 2).insert(b));
    assert(held_after(s, 5) =~= held_after(s, 4));
    assert(held_after(s, 6) =~= held_after(s, 4).insert(c));
    assert(held_after(s, 7) =~= held_after(s, 6));
    assert(held_after(s, 8) =~= held_after(s, 6).remove(c));
    assert(held_after(s, 9) =~= held_after(s, 8).remove(b));
    assert(held_after(s, 10) =~= held_after(s, 9).remove(a));
    assert(held_after(s, 10) =~= Set::<usize>::empty());
    if advance {
        assert(held_after(s, 11) =~= Set::<usize>::empty());
    }
}

/// Phased ring rotation: three roles share a rotating three-resource
/// pattern gated by a global phase counter, so only one role's pattern is
/// live at any instant.  The acquisition-order graph carries the full
/// three-cycle; the wait-for graph never does.
/// LAWS (in `ensures`) — each role begins by waiting for its own phase,
/// holds nothing when it advances the counter (or ends), and performs no
/// other gate operation inside its pattern.
pub fn complex_lock_order_fp() -> (s: Scenario)
    ensures
        s.name@ == "complex_lock_order_fp"@,
        s.wf(),
        s.truth is MustNotDeadlock,
        s.roles@.len() == 3,
        s.roles@[0].steps@ == spec_phase_role(0, 0, 1, 2, true),
        s.roles@[1].steps@ == spec_phase_role(1, 1, 2, 0, true),
        s.roles@[2].steps@ == spec_phase_role(2, 2, 0, 1, false),
        forall|t: int|
            0 <= t < 3 ==> (#[trigger] s.roles@[t]).steps@[0] == Step::AwaitGate(t as usize),
        forall|t: int|
            0 <= t < 3 ==> held_after(
                (#[trigger] s.roles@[t]).steps@,
                s.roles@[t].steps@.len() as int,
            ) =~= Set::<usize>::empty(),
        s.roles@[0].steps@[10] == Step::StoreGate(1),
        s.roles@[1].steps@[10] == Step::StoreGate(2),
{
    let mut roles: Vec<Role> = Vec::new();
    let mut t: usize = 0;
    while t < 3
        invariant
            0 <= t <= 3,
            roles@.len() == t,
            t >= 1 ==> roles@[0].steps@ == spec_phase_role(0, 0, 1, 2, true),
            t >= 2 ==> roles@[1].steps@ == spec_phase_role(1, 1, 2, 0, true),
            t >= 3 ==> roles@[2].steps@ == spec_phase_role(2, 2, 0, 1, false),
        decreases 3 - t,
    {
        let (a, b, c) = if t == 0 {
            (0usize, 1usize, 2usize)
        } else if t == 1 {
            (1usize, 2usize, 0usize)
        } else {
            (2usize, 0usize, 1usize)
        };
        let mut v: Vec<Step> = Vec::new();
        v.push(Step::AwaitGate(t));
        v.push(Step::Acquire(a, Mode::Exclusive));
        v.push(Step::Sleep(5000));
        v.push(Step::Acquire(b, Mode::Exclusive));
        v.push(Step::Sleep(5000));
        v.push(Step::Acquire(c, Mode::Exclusive));
        v.push(Step::Sleep(5000));
        v.push(Step::Release(c));
        v.push(Step::Release(b));
        v.push(Step::Release(a));
        if t < 2 {
            v.push(Step::StoreGate(t + 1));
        }
        proof {
            assert(v@ =~= spec_phase_role(t, a, b, c, t < 2));
        }
        roles.push(Role { steps: v });
        t = t + 1;
    }
    let s = Scenario {
        name: "complex_lock_order_fp",
        family: Family::FalsePositive,
        truth: GroundTruth::MustNotDeadlock,
        seed: None,
        n_resources: 3,
        n_barriers: 0,
        n_gates: 3,
        shared_capable: false,
        roles,
    };
    proof {
        lemma_phase_role_props(0, 0, 1, 2, true);
        lemma_phase_role_props(1, 1, 2, 0, true);
        lemma_phase_role_props(2, 2, 0, 1, false);
    }
    s
}

} // verus!
