//! Outcome arbitration: the decision core of a run.
//!
//! The engine consumes, tick by tick, what the surrounding process observed:
//! the shared detection flag, the completion reports drained from the worker
//! channel, and whether the channel disconnected.  At each tick it decides
//! whether detector evidence wins (`Flagged`), all expected workers have
//! reported success (`Completed`), or waiting continues; a run whose trace is
//! exhausted without a decision is `TimedOut`.  The surrounding process only
//! gathers observations and sleeps one poll interval between ticks — every
//! decision is made here, and the number of ticks consumed is bounded, so
//! arbitration never waits on workers that are permanently blocked.

use vstd::prelude::*;

verus! {

/// What the process observed during one poll tick: the detection flag, the
/// completion reports drained from the worker channel (one `bool` per worker,
/// `true` for success), and whether the channel disconnected with workers
/// still outstanding.
pub struct PollObservation {
    pub flag_set: bool,
    pub reports: Vec<bool>,
    pub disconnected: bool,
}

/// A mid-trace decision: detector evidence, or full completion.
#[derive(Clone, Copy, PartialEq, Eq, Structural, Debug)]
pub enum Classification {
    Flagged,
    Completed,
}

/// The tri-state classification of a finished run.
#[derive(Clone, Copy, PartialEq, Eq, Structural, Debug)]
pub enum Outcome {
    Flagged,
    TimedOut,
    Completed,
}

impl Outcome {
    /// The `flagged` field of a log record.
    pub fn is_flagged(self) -> (r: bool)
        ensures
            r == (self is Flagged),
    {
        match self {
            Outcome::Flagged => true,
            _ => false,
        }
    }

    /// The `timedOut` field of a log record.
    pub fn is_timed_out(self) -> (r: bool)
        ensures
            r == (self is TimedOut),
    {
        match self {
            Outcome::TimedOut => true,
            _ => false,
        }
    }
}

/// The classification of a run together with how many poll ticks arbitration
/// consumed before deciding.
pub struct Verdict {
    pub outcome: Outcome,
    pub ticks_used: usize,
}

/// How many of the drained reports are successes.
pub open spec fn count_successes(reports: Seq<bool>) -> nat
    decreases reports.len(),
{
    if reports.len() == 0 {
        0
    } else {
        count_successes(reports.drop_last()) + if reports.last() {
            1nat
        } else {
            0nat
        }
    }
}

/// Whether any drained report is a failure.
pub open spec fn has_failure(reports: Seq<bool>) -> bool {
    exists|i: int| 0 <= i < reports.len() && !reports[i]
}

/// Whether a tick carries detector evidence: the flag is set, a worker
/// reported failure (a forced abort is treated as detector intervention), or
/// the channel disconnected with workers still outstanding.
pub open spec fn tick_flags(obs: PollObservation) -> bool {
    obs.flag_set || has_failure(obs.reports@) || obs.disconnected
}

/// The classification that a trace of observations yields, starting from
/// `completed` successes already counted toward `expected`.  The flag is
/// checked first at every tick — detector evidence has priority over
/// completion evidence — then failures, then full completion; a trace that
/// ends without a decision times out.
pub open spec fn spec_arbitrate(expected: nat, completed: nat, ticks: Seq<PollObservation>) -> Outcome
    decreases ticks.len(),
{
    if ticks.len() == 0 {
        Outcome::TimedOut
    } else if tick_flags(ticks[0]) {
        Outcome::Flagged
    } else if completed + count_successes(ticks[0].reports@) >= expected {
        Outcome::Completed
    } else {
        spec_arbitrate(expected, completed + count_successes(ticks[0].reports@), ticks.drop_first())
    }
}

/// How many ticks arbitration consumes before deciding: the engine stops
/// at the first tick that carries detector evidence or completes the run,
/// and consumes the whole trace when neither ever happens.
pub open spec fn spec_arbitrate_ticks(
    expected: nat,
    completed: nat,
    ticks: Seq<PollObservation>,
) -> nat
    decreases ticks.len(),
{
    if ticks.len() == 0 {
        0
    } else if tick_flags(ticks[0]) || completed + count_successes(ticks[0].reports@) >= expected {
        1
    } else {
        1 + spec_arbitrate_ticks(
            expected,
            completed + count_successes(ticks[0].reports@),
            ticks.drop_first(),
        )
    }
}

/// Successes accumulated over a whole trace.
pub open spec fn total_successes(ticks: Seq<PollObservation>) -> nat
    decreases ticks.len(),
{
    if ticks.len() == 0 {
        0
    } else {
        count_successes(ticks[0].reports@) + total_successes(ticks.drop_first())
    }
}

/// Successes accumulated over the first `j` ticks of a trace.
pub open spec fn prefix_successes(ticks: Seq<PollObservation>, j: int) -> nat {
    total_successes(ticks.take(j))
}

proof fn lemma_count_take_step(reports: Seq<bool>, i: int)
    requires
        0 <= i < reports.len(),
    ensures
        count_successes(reports.take(i + 1)) == count_successes(reports.take(i)) + if reports[i] {
            1nat
        } else {
            0nat
        },
{
    assert(reports.take(i + 1).drop_last() =~= reports.take(i));
    assert(reports.take(i + 1).last() == reports[i]);
}

/// The state of one arbitration: how many workers are expected to report and
/// how many successes have been counted so far, plus the fixed deadline and
/// poll interval of the run.
pub struct TestRunner {
    pub timeout_ms: u64,
    pub poll_interval_ms: u64,
    pub expected: usize,
    pub completed: usize,
}

impl TestRunner {
    pub open spec fn wf(self) -> bool {
        &&& self.completed <= self.expected
        &&& self.poll_interval_ms > 0
    }

    /// A fresh arbitration for `expected` workers, with the default deadline
    /// of ten seconds and poll interval of one millisecond.
    pub fn new(expected: usize) -> (r: Self)
        ensures
            r.expected == expected,
            r.completed == 0,
            r.timeout_ms == 10000u64,
            r.poll_interval_ms == 1u64,
            r.wf(),
    {
        TestRunner {
            timeout_ms: crate::backend::timeout_duration(),
            poll_interval_ms: 1,
            expected,
            completed: 0,
        }
    }

    /// The largest number of poll ticks a run may consume: one per poll
    /// interval within the deadline, plus the final tick that observes the
    /// deadline itself.
    pub fn tick_budget(&self) -> (r: u64)
        requires
            self.poll_interval_ms > 0,
            self.timeout_ms < u64::MAX,
        ensures
            r == self.timeout_ms / self.poll_interval_ms + 1,
    {
        assert(self.timeout_ms / self.poll_interval_ms <= self.timeout_ms) by (nonlinear_arith)
            requires self.poll_interval_ms > 0;
        self.timeout_ms / self.poll_interval_ms + 1
    }

    /// Decide one poll tick.  The detection flag is checked first; then the
    /// drained reports are scanned for a failure; then full completion is
    /// checked; otherwise the successes are counted and waiting continues.
    pub fn poll_tick(&mut self, obs: &PollObservation) -> (r: Option<Classification>)
        requires
            old(self).wf(),
        ensures
            final(self).expected == old(self).expected,
            final(self).timeout_ms == old(self).timeout_ms,
            final(self).poll_interval_ms == old(self).poll_interval_ms,
            final(self).wf(),
            tick_flags(*obs) ==> r == Some(Classification::Flagged),
            !tick_flags(*obs) && old(self).completed + count_successes(obs.reports@) >= old(
                self,
            ).expected ==> r == Some(Classification::Completed),
            !tick_flags(*obs) && old(self).completed + count_successes(obs.reports@) < old(
                self,
            ).expected ==> r is None && final(self).completed == old(self).completed
                + count_successes(obs.reports@),
    {
        if obs.flag_set || obs.disconnected {
            return Some(Classification::Flagged);
        }
        let n = obs.reports.len();
        let mut i: usize = 0;
        while i < n
            invariant
                n == obs.reports@.len(),
                0 <= i <= n,
                forall|j: int| 0 <= j < i ==> obs.reports@[j],
                self == old(self),
                old(self).wf(),
            decreases n - i,
        {
            if !obs.reports[i] {
                return Some(Classification::Flagged);
            }
            i = i + 1;
        }
        assert(!has_failure(obs.reports@));
        if self.completed >= self.expected {
            return Some(Classification::Completed);
        }
        // No failures: every report is a success.
        let mut counted: usize = 0;
        let mut k: usize = 0;
        while k < n
            invariant
                n == obs.reports@.len(),
                0 <= k <= n,
                !obs.flag_set,
                !obs.disconnected,
                forall|j: int| 0 <= j < n ==> obs.reports@[j],
                counted == count_successes(obs.reports@.take(k as int)),
                self.completed + counted < self.expected,
                self == old(self),
                old(self).wf(),
            decreases n - k,
        {
            proof {
                lemma_count_take_step(obs.reports@, k as int);
            }
            counted = counted + 1;
            k = k + 1;
            if self.completed + counted >= self.expected {
                proof {
                    lemma_prefix_count_bound(obs.reports@, k as int);
                }
                assert(!tick_flags(*obs));
                return Some(Classification::Completed);
            }
        }
        assert(obs.reports@.take(n as int) =~= obs.reports@);
        self.completed = self.completed + counted;
        None
    }
}

impl TestRunner {
    /// Arbitrate a whole trace of observations, one per poll tick, and
    /// return the classification together with the number of ticks consumed.
    /// Arbitration never consumes more ticks than the trace holds — the
    /// surrounding process gathers at most one observation per poll interval
    /// up to the deadline, so the engine returns within the deadline plus one
    /// poll interval regardless of worker state.
    pub fn arbitrate(&mut self, ticks: &Vec<PollObservation>) -> (v: Verdict)
        requires
            old(self).wf(),
        ensures
            v.outcome == spec_arbitrate(
                old(self).expected as nat,
                old(self).completed as nat,
                ticks@,
            ),
            v.ticks_used == spec_arbitrate_ticks(
                old(self).expected as nat,
                old(self).completed as nat,
                ticks@,
            ),
            v.ticks_used <= ticks@.len(),
            v.outcome is TimedOut ==> v.ticks_used == ticks@.len(),
            final(self).expected == old(self).expected,
            final(self).timeout_ms == old(self).timeout_ms,
            final(self).poll_interval_ms == old(self).poll_interval_ms,
            final(self).wf(),
    {
        let ghost e: nat = self.expected as nat;
        let ghost c0: nat = self.completed as nat;
        proof {
            assert(ticks@.skip(0) =~= ticks@);
        }
        let n = ticks.len();
        let mut i: usize = 0;
        while i < n
            invariant
                n == ticks@.len(),
                0 <= i <= n,
                self.wf(),
                self.expected as nat == e,
                e == old(self).expected as nat,
                c0 == old(self).completed as nat,
                self.expected == old(self).expected,
                self.timeout_ms == old(self).timeout_ms,
                self.poll_interval_ms == old(self).poll_interval_ms,
                spec_arbitrate(e, c0, ticks@) == spec_arbitrate(
                    e,
                    self.completed as nat,
                    ticks@.skip(i as int),
                ),
                spec_arbitrate_ticks(e, c0, ticks@) == i + spec_arbitrate_ticks(
                    e,
                    self.completed as nat,
                    ticks@.skip(i as int),
                ),
            decreases n - i,
        {
            assert(ticks@.skip(i as int)[0] == ticks@[i as int]);
            let ghost c: nat = self.completed as nat;
            let r = self.poll_tick(&ticks[i]);
            match r {
                Some(Classification::Flagged) => {
                    proof {
                        assert(tick_flags(ticks@[i as int]));
                        assert(spec_arbitrate(e, c, ticks@.skip(i as int)) is Flagged);
                        assert(spec_arbitrate_ticks(e, c, ticks@.skip(i as int)) == 1);
                    }
                    return Verdict { outcome: Outcome::Flagged, ticks_used: i + 1 };
                },
                Some(Classification::Completed) => {
                    proof {
                        assert(!tick_flags(ticks@[i as int]) && c + count_successes(
                            ticks@[i as int].reports@,
                        ) >= e);
                        assert(spec_arbitrate(e, c, ticks@.skip(i as int)) is Completed);
                        assert(spec_arbitrate_ticks(e, c, ticks@.skip(i as int)) == 1);
                    }
                    return Verdict { outcome: Outcome::Completed, ticks_used: i + 1 };
                },
                None => {
                    proof {
                        assert(ticks@.skip(i as int).drop_first() =~= ticks@.skip(i as int + 1));
                    }
                    i = i + 1;
                },
            }
        }
        assert(ticks@.skip(n as int) =~= Seq::<PollObservation>::empty());
        Verdict { outcome: Outcome::TimedOut, ticks_used: n }
    }
}

/// Unfolding of `total_successes` over a prefix: the successes in the first
/// `m` ticks are those of the first tick plus those of the next `m - 1`.
proof fn lemma_total_take_unfold(ticks: Seq<PollObservation>, m: int)
    requires
        1 <= m <= ticks.len(),
    ensures
        total_successes(ticks.take(m)) == count_successes(ticks[0].reports@) + total_successes(
            ticks.drop_first().take(m - 1),
        ),
{
    assert(ticks.take(m)[0] == ticks[0]);
    assert(ticks.take(m).drop_first() =~= ticks.drop_first().take(m - 1));
}

/// LAW — completion requires the evidence of completion: arbitration reports
/// `Completed` only if the success reports drained over the trace, together
/// with those already counted, reach the expected worker count.  A run whose
/// workers are caught in a real circular wait can never be classified
/// `Completed`, however the detector behaves.
pub proof fn lemma_completed_needs_all_successes(
    expected: nat,
    completed: nat,
    ticks: Seq<PollObservation>,
)
    requires
        completed + total_successes(ticks) < expected,
    ensures
        !(spec_arbitrate(expected, completed, ticks) is Completed),
    decreases ticks.len(),
{
    if ticks.len() > 0 && !tick_flags(ticks[0]) {
        lemma_completed_needs_all_successes(
            expected,
            completed + count_successes(ticks[0].reports@),
            ticks.drop_first(),
        );
    }
}

/// LAW — a clean run completes: when no tick of a nonempty trace carries
/// detector evidence and the success reports over the trace reach the
/// expected count, arbitration reports `Completed`.  A correct backend
/// running a false-positive scenario to completion is classified `Completed`.
pub proof fn lemma_clean_trace_completes(
    expected: nat,
    completed: nat,
    ticks: Seq<PollObservation>,
)
    requires
        ticks.len() > 0,
        forall|i: int| 0 <= i < ticks.len() ==> !tick_flags(#[trigger] ticks[i]),
        completed + total_successes(ticks) >= expected,
    ensures
        spec_arbitrate(expected, completed, ticks) is Completed,
    decreases ticks.len(),
{
    let c1 = completed + count_successes(ticks[0].reports@);
    if c1 < expected {
        assert(total_successes(ticks) == count_successes(ticks[0].reports@) + total_successes(
            ticks.drop_first(),
        ));
        if ticks.drop_first().len() == 0 {
            assert(false);
        } else {
            assert(forall|i: int|
                0 <= i < ticks.drop_first().len() ==> !tick_flags(
                    #[trigger] ticks.drop_first()[i],
                ));
            lemma_clean_trace_completes(expected, c1, ticks.drop_first());
        }
    }
}

/// LAW — flagged needs evidence: when no tick of the trace carries detector
/// evidence, arbitration never reports `Flagged`.  A correct backend running
/// a false-positive scenario yields `flagged == false` whatever else happens.
pub proof fn lemma_flagged_needs_evidence(
    expected: nat,
    completed: nat,
    ticks: Seq<PollObservation>,
)
    requires
        forall|i: int| 0 <= i < ticks.len() ==> !tick_flags(#[trigger] ticks[i]),
    ensures
        !(spec_arbitrate(expected, completed, ticks) is Flagged),
    decreases ticks.len(),
{
    if ticks.len() > 0 {
        assert(forall|i: int|
            0 <= i < ticks.drop_first().len() ==> !tick_flags(#[trigger] ticks.drop_first()[i]));
        lemma_flagged_needs_evidence(
            expected,
            completed + count_successes(ticks[0].reports@),
            ticks.drop_first(),
        );
    }
}

/// LAW — detector evidence decides: if tick `i` is the first to carry
/// detector evidence and completion is not reached at any tick up to and
/// including `i`, arbitration reports `Flagged`.  Evidence is checked before
/// completion at every tick, so detector evidence has priority.
pub proof fn lemma_evidence_flags(
    expected: nat,
    completed: nat,
    ticks: Seq<PollObservation>,
    i: int,
)
    requires
        0 <= i < ticks.len(),
        tick_flags(ticks[i]),
        forall|j: int| 0 <= j < i ==> !tick_flags(#[trigger] ticks[j]),
        forall|j: int| 1 <= j <= i ==> completed + #[trigger] prefix_successes(ticks, j) < expected,
    ensures
        spec_arbitrate(expected, completed, ticks) is Flagged,
    decreases i,
{
    if i > 0 {
        let c1 = completed + count_successes(ticks[0].reports@);
        lemma_total_take_unfold(ticks, 1);
        assert(ticks.drop_first().take(0) =~= Seq::<PollObservation>::empty());
        assert(completed + prefix_successes(ticks, 1) < expected);
        assert(prefix_successes(ticks, 1) == count_successes(ticks[0].reports@));
        assert(c1 < expected);
        let rest = ticks.drop_first();
        assert(rest[i - 1] == ticks[i]);
        assert(forall|j: int| 0 <= j < i - 1 ==> !tick_flags(#[trigger] rest[j]));
        assert forall|j: int| 1 <= j <= i - 1 implies c1 + #[trigger] prefix_successes(rest, j)
            < expected by {
            lemma_total_take_unfold(ticks, j + 1);
            assert(completed + prefix_successes(ticks, j + 1) < expected);
        }
        lemma_evidence_flags(expected, c1, rest, i - 1);
    }
}

/// Counting a prefix of the reports never exceeds counting all of them.
proof fn lemma_prefix_count_bound(reports: Seq<bool>, k: int)
    requires
        0 <= k <= reports.len(),
    ensures
        count_successes(reports.take(k)) <= count_successes(reports),
    decreases reports.len() - k,
{
    if k < reports.len() {
        lemma_count_take_step(reports, k);
        lemma_prefix_count_bound(reports, k + 1);
    } else {
        assert(reports.take(k) =~= reports);
    }
}

} // verus!
