//! Probabilistic (seeded adversarial-timing) scenario constructors.
//!
//! The same circular acquisition orders as the deterministic family, but
//! with no barrier: ordering is driven entirely by per-role pseudorandom
//! delays and randomized voluntary yields derived from the resolved seed.
//! Role `i` draws from a generator seeded with `seed + i` (wrapping), so
//! roles are correlated but distinguishable, and one seed reproduces every
//! role's delay and yield sequence exactly.  A role polls the shared
//! detection flag before each later acquisition and aborts early once it is
//! set — advisory only; classification never depends on it, because the
//! arbitration engine enforces an independent deadline regardless.

use vstd::prelude::*;

use crate::model::{role_wf, Family, GroundTruth, Mode, Role, Scenario, Step};
use rand::{Rng, SeedableRng};

verus! {

/// The 64-bit keystream words of the ChaCha12 generator seeded from `seed`:
/// a fixed, portable stream cipher, so the words are a function of the seed
/// alone — the ground of seed reproducibility.
pub uninterp spec fn chacha_words(seed: u64, n: nat) -> Seq<u64>;

/// Relies on `chacha20::ChaCha12Rng` (ChaCha stream cipher with 12 rounds)
/// seeded through `rand_core`'s `seed_from_u64` and read through
/// `rand_core`'s `Rng::next_u64`: both are documented to be reproducible —
/// the same seed yields the same words on every run, platform and
/// architecture.
#[verifier::external_body]
fn draw_words(seed: u64, n: usize) -> (r: Vec<u64>)
    ensures
        r@ == chacha_words(seed, n as nat),
        r@.len() == n,
{
    let mut rng = chacha20::ChaCha12Rng::seed_from_u64(seed);
    let mut words: Vec<u64> = Vec::with_capacity(n);
    for _ in 0..n {
        words.push(rng.next_u64());
    }
    words
}

/// A keystream word mapped into the delay range `[lo, hi)`, microseconds.
pub open spec fn spec_delay(w: u64, lo: u64, hi: u64) -> u64
    recommends
        lo < hi,
{
    (lo + (w as int % (hi - lo))) as u64
}

fn delay_in_range(w: u64, lo: u64, hi: u64) -> (r: u64)
    requires
        lo < hi,
    ensures
        r == spec_delay(w, lo, hi),
        lo <= r < hi,
{
    lo + w % (hi - lo)
}

/// Whether a keystream word decides a voluntary yield, with chance
/// `num` in `den`.
pub open spec fn spec_flip(w: u64, num: u64, den: u64) -> bool
    recommends
        den > 0,
{
    (w as int % (den as int)) < num
}

fn flip(w: u64, num: u64, den: u64) -> (r: bool)
    requires
        den > 0,
    ensures
        r == spec_flip(w, num, den),
{
    w % den < num
}

/// The generator seed of role `i`: the scenario seed plus the role index,
/// wrapping.
pub open spec fn role_seed(seed: u64, i: usize) -> u64 {
    if seed + i > u64::MAX {
        (seed + i - 0x10000000000000000) as u64
    } else {
        (seed + i) as u64
    }
}

/// Delay bounds of the initial sleep before the first acquisition.
pub const START_DELAY_LO: u64 = 10;

pub const START_DELAY_HI: u64 = 100;

/// Delay bounds of the sleeps between later acquisitions.
pub const STEP_DELAY_LO: u64 = 15;

pub const STEP_DELAY_HI: u64 = 80;

/// Yield chance between later acquisitions: `YIELD_NUM` in `YIELD_DEN`.
pub const YIELD_NUM: u64 = 7;

pub const YIELD_DEN: u64 = 10;

/// The `k`-th block of a seeded role: the first block sleeps and takes the
/// role's first resource; every later block sleeps, possibly yields, polls
/// the detection flag, and takes the next resource around the ring.
pub open spec fn spec_block(words: Seq<u64>, i: usize, n_resources: usize, k: nat) -> Seq<Step>
    recommends
        n_resources >= 1,
{
    if k == 0 {
        seq![
            Step::Sleep(spec_delay(words[0], START_DELAY_LO, START_DELAY_HI)),
            Step::Acquire((((i as int) % (n_resources as int)) as usize), Mode::Exclusive),
        ]
    } else {
        seq![Step::Sleep(spec_delay(words[2 * k as int], STEP_DELAY_LO, STEP_DELAY_HI))] + (if spec_flip(
            words[2 * k as int + 1],
            YIELD_NUM,
            YIELD_DEN,
        ) {
            seq![Step::YieldNow]
        } else {
            Seq::<Step>::empty()
        }) + seq![
            Step::PollAbort,
            Step::Acquire((((i + k) % (n_resources as int)) as usize), Mode::Exclusive),
        ]
    }
}

/// The first `upto` blocks of a seeded role, concatenated.
pub open spec fn spec_blocks(words: Seq<u64>, i: usize, n_resources: usize, upto: nat) -> Seq<Step>
    decreases upto,
{
    if upto == 0 {
        Seq::empty()
    } else {
        spec_blocks(words, i, n_resources, (upto - 1) as nat) + spec_block(
            words,
            i,
            n_resources,
            (upto - 1) as nat,
        )
    }
}

/// The whole program of seeded role `i`: `chain` acquisitions around a ring
/// of `n_resources` resources, timed by the keystream of `seed + i`.
pub open spec fn spec_seeded_role(seed: u64, i: usize, n_resources: usize, chain: usize) -> Seq<
    Step,
> {
    spec_blocks(chacha_words(role_seed(seed, i), 2 * chain as nat), i, n_resources, chain as nat)
}

/// Build seeded role `i`.
fn seeded_role(seed: u64, i: usize, n_resources: usize, chain: usize) -> (r: Role)
    requires
        1 <= n_resources,
        1 <= chain,
        i + chain <= usize::MAX,
        2 * chain <= usize::MAX,
    ensures
        r.steps@ == spec_seeded_role(seed, i, n_resources, chain),
        role_wf(r, n_resources as int, 0, 0),
{
    let rs = seed.wrapping_add(i as u64);
    proof {
        assert(rs == role_seed(seed, i));
    }
    let words = draw_words(rs, 2 * chain);
    let ghost ws = words@;
    let mut steps: Vec<Step> = Vec::new();
    let mut k: usize = 0;
    while k < chain
        invariant
            1 <= n_resources,
            1 <= chain,
            i + chain <= usize::MAX,
            2 * chain <= usize::MAX,
            0 <= k <= chain,
            ws == chacha_words(role_seed(seed, i), 2 * chain as nat),
            words@ == ws,
            words@.len() == 2 * chain,
            steps@ == spec_blocks(ws, i, n_resources, k as nat),
            forall|m: int|
                0 <= m < steps@.len() ==> crate::model::step_wf(
                    #[trigger] steps@[m],
                    n_resources as int,
                    0,
                    0,
                ),
        decreases chain - k,
    {
        let ghost before = steps@;
        if k == 0 {
            let w0 = words[0];
            steps.push(Step::Sleep(delay_in_range(w0, START_DELAY_LO, START_DELAY_HI)));
            steps.push(Step::Acquire(i % n_resources, Mode::Exclusive));
        } else {
            let wd = words[2 * k];
            let wy = words[2 * k + 1];
            steps.push(Step::Sleep(delay_in_range(wd, STEP_DELAY_LO, STEP_DELAY_HI)));
            if flip(wy, YIELD_NUM, YIELD_DEN) {
                steps.push(Step::YieldNow);
            }
            steps.push(Step::PollAbort);
            steps.push(Step::Acquire((i + k) % n_resources, Mode::Exclusive));
        }
        proof {
            assert(steps@ =~= before + spec_block(ws, i, n_resources, k as nat));
            assert(steps@ =~= spec_blocks(ws, i, n_resources, (k + 1) as nat));
        }
        k = k + 1;
    }
    Role { steps }
}

/// Build the seeded ring scenario `name`: `n_roles` roles over
/// `n_resources` resources, role `i` acquiring `chain` resources starting
/// at resource `i`.
pub fn seeded_ring_scenario(
    name: &'static str,
    n_resources: usize,
    n_roles: usize,
    chain: usize,
    seed: u64,
    shared_capable: bool,
) -> (s: Scenario)
    requires
        2 <= n_resources,
        1 <= n_roles,
        2 <= chain,
        n_roles + chain <= usize::MAX,
        2 * chain <= usize::MAX,
    ensures
        s.name == name,
        s.family is Probabilistic,
        s.truth is MustDeadlock,
        s.seed == Some(seed),
        s.n_resources == n_resources,
        s.n_barriers == 0,
        s.n_gates == 0,
        s.shared_capable == shared_capable,
        s.roles@.len() == n_roles,
        forall|i: int|
            0 <= i < n_roles ==> (#[trigger] s.roles@[i]).steps@ == spec_seeded_role(
                seed,
                i as usize,
                n_resources,
                chain,
            ),
        s.wf(),
{
    let mut roles: Vec<Role> = Vec::new();
    let mut i: usize = 0;
    while i < n_roles
        invariant
            2 <= n_resources,
            1 <= n_roles,
            2 <= chain,
            n_roles + chain <= usize::MAX,
            2 * chain <= usize::MAX,
            0 <= i <= n_roles,
            roles@.len() == i,
            forall|j: int|
                0 <= j < i ==> (#[trigger] roles@[j]).steps@ == spec_seeded_role(
                    seed,
                    j as usize,
                    n_resources,
                    chain,
                ),
            forall|j: int|
                0 <= j < i ==> role_wf(#[trigger] roles@[j], n_resources as int, 0, 0),
        decreases n_roles - i,
    {
        let r = seeded_role(seed, i, n_resources, chain);
        roles.push(r);
        i = i + 1;
    }
    let s = Scenario {
        name,
        family: Family::Probabilistic,
        truth: GroundTruth::MustDeadlock,
        seed: Some(seed),
        n_resources,
        n_barriers: 0,
        n_gates: 0,
        shared_capable,
        roles,
    };
    proof {
        assert forall|ri: int| 0 <= ri < s.roles@.len() implies role_wf(
            #[trigger] s.roles@[ri],
            s.n_resources as int,
            s.n_barriers as int,
            s.n_gates as int,
        ) by {
            assert(role_wf(s.roles@[ri], n_resources as int, 0, 0));
        }
    }
    s
}

/// The seeded two-lock cycle.
pub fn two_lock(seed: u64) -> (s: Scenario)
    ensures
        s.name@ == "two_lock"@,
        s.wf(),
        s.truth is MustDeadlock,
        s.seed == Some(seed),
        s.roles@.len() == 2,
        forall|i: int|
            0 <= i < 2 ==> (#[trigger] s.roles@[i]).steps@ == spec_seeded_role(
                seed,
                i as usize,
                2,
                2,
            ),
{
    seeded_ring_scenario("two_lock", 2, 2, 2, seed, false)
}

/// The seeded three-lock cycle: each role chains through all three locks.
pub fn three_lock_cycle(seed: u64) -> (s: Scenario)
    ensures
        s.name@ == "three_lock_cycle"@,
        s.wf(),
        s.truth is MustDeadlock,
        s.seed == Some(seed),
        s.roles@.len() == 3,
        forall|i: int|
            0 <= i < 3 ==> (#[trigger] s.roles@[i]).steps@ == spec_seeded_role(
                seed,
                i as usize,
                3,
                3,
            ),
{
    seeded_ring_scenario("three_lock_cycle", 3, 3, 3, seed, false)
}

/// The seeded five-lock cycle: each role chains through all five locks.
pub fn five_lock_cycle(seed: u64) -> (s: Scenario)
    ensures
        s.name@ == "five_lock_cycle"@,
        s.wf(),
        s.truth is MustDeadlock,
        s.seed == Some(seed),
        s.roles@.len() == 5,
        forall|i: int|
            0 <= i < 5 ==> (#[trigger] s.roles@[i]).steps@ == spec_seeded_role(
                seed,
                i as usize,
                5,
                5,
            ),
{
    seeded_ring_scenario("five_lock_cycle", 5, 5, 5, seed, false)
}

/// The seeded dining philosophers: five roles, each taking its left then
/// its right fork.
pub fn dining_philosophers(seed: u64) -> (s: Scenario)
    ensures
        s.name@ == "dining_philosophers"@,
        s.wf(),
        s.truth is MustDeadlock,
        s.seed == Some(seed),
        s.roles@.len() == 5,
        forall|i: int|
            0 <= i < 5 ==> (#[trigger] s.roles@[i]).steps@ == spec_seeded_role(
                seed,
                i as usize,
                5,
                2,
            ),
{
    seeded_ring_scenario("dining_philosophers", 5, 5, 2, seed, false)
}

/// The seeded two-cycle over read/write-capable resources, write mode on
/// both edges.
pub fn rwlock_deadlock(seed: u64) -> (s: Scenario)
    ensures
        s.name@ == "rwlock_deadlock"@,
        s.wf(),
        s.truth is MustDeadlock,
        s.seed == Some(seed),
        s.shared_capable,
        s.roles@.len() == 2,
        forall|i: int|
            0 <= i < 2 ==> (#[trigger] s.roles@[i]).steps@ == spec_seeded_role(
                seed,
                i as usize,
                2,
                2,
            ),
{
    seeded_ring_scenario("rwlock_deadlock", 2, 2, 2, seed, true)
}

/// The delay values of a role's sleeps, in program order.
pub open spec fn delays_of(steps: Seq<Step>) -> Seq<u64>
    decreases steps.len(),
{
    if steps.len() == 0 {
        Seq::empty()
    } else {
        delays_of(steps.drop_last()) + (if steps.last() is Sleep {
            seq![steps.last()->Sleep_0]
        } else {
            Seq::<u64>::empty()
        })
    }
}

proof fn lemma_delays_take_step(steps: Seq<Step>, i: int)
    requires
        0 <= i < steps.len(),
    ensures
        delays_of(steps.take(i + 1)) == delays_of(steps.take(i)) + (if steps[i] is Sleep {
            seq![steps[i]->Sleep_0]
        } else {
            Seq::<u64>::empty()
        }),
{
    assert(steps.take(i + 1).drop_last() =~= steps.take(i));
    assert(steps.take(i + 1).last() == steps[i]);
}

/// Extract a role's delay sequence, e.g. to compare two runs of one seed.
pub fn role_delays(r: &Role) -> (d: Vec<u64>)
    ensures
        d@ == delays_of(r.steps@),
{
    let mut d: Vec<u64> = Vec::new();
    let n = r.steps.len();
    let mut i: usize = 0;
    while i < n
        invariant
            n == r.steps@.len(),
            0 <= i <= n,
            d@ == delays_of(r.steps@.take(i as int)),
        decreases n - i,
    {
        proof {
            lemma_delays_take_step(r.steps@, i as int);
        }
        match r.steps[i] {
            Step::Sleep(us) => {
                d.push(us);
            },
            _ => {},
        }
        i = i + 1;
    }
    proof {
        assert(r.steps@.take(n as int) =~= r.steps@);
    }
    d
}

/// LAW — seed reproducibility: two scenarios whose roles were built from
/// the same seed over the same ring have identical role programs, delay and
/// yield sequences included.  Classification may still differ between such
/// runs: the backend's own internal scheduling is outside harness control.
pub proof fn lemma_seed_reproducibility(
    a: Scenario,
    b: Scenario,
    seed: u64,
    n_resources: usize,
    chain: usize,
)
    requires
        a.roles@.len() == b.roles@.len(),
        forall|i: int|
            0 <= i < a.roles@.len() ==> (#[trigger] a.roles@[i]).steps@ == spec_seeded_role(
                seed,
                i as usize,
                n_resources,
                chain,
            ),
        forall|i: int|
            0 <= i < b.roles@.len() ==> (#[trigger] b.roles@[i]).steps@ == spec_seeded_role(
                seed,
                i as usize,
                n_resources,
                chain,
            ),
    ensures
        forall|i: int|
            0 <= i < a.roles@.len() ==> (#[trigger] a.roles@[i]).steps@ == b.roles@[i].steps@,
{
}

} // verus!
