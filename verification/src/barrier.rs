//! The phase barrier: a rendezvous of fixed arity, modelled as an explicit
//! arrive/depart counter pair so the construction stays portable instead of
//! leaning on any built-in barrier primitive.
//!
//! A barrier of arity `n` admits `n` arrivals; a departure is enabled only
//! once all `n` participants have arrived.  This is the only inter-thread
//! ordering guarantee a deterministic scenario relies on: "all `n` roles have
//! finished phase one" strictly precedes "any role attempts phase two".

use vstd::prelude::*;

verus! {

/// Counter pair of one rendezvous point.
#[derive(Clone, Copy, PartialEq, Eq, Structural, Debug)]
pub struct PhaseBarrier {
    pub arity: usize,
    pub arrived: usize,
    pub departed: usize,
}

impl PhaseBarrier {
    pub open spec fn wf(self) -> bool {
        &&& self.departed <= self.arrived <= self.arity
        &&& (self.departed > 0 ==> self.arrived == self.arity)
    }

    /// A fresh barrier: nobody has arrived, nobody has departed.
    pub fn new(arity: usize) -> (r: Self)
        ensures
            r.arity == arity,
            r.arrived == 0,
            r.departed == 0,
            r.wf(),
    {
        PhaseBarrier { arity, arrived: 0, departed: 0 }
    }

    /// Record one arrival.  Returns whether the arrival was admitted; a
    /// barrier whose arity is exhausted admits no further arrival.
    pub fn arrive(&mut self) -> (ok: bool)
        requires
            old(self).wf(),
        ensures
            final(self).wf(),
            final(self).arity == old(self).arity,
            final(self).departed == old(self).departed,
            ok == (old(self).arrived < old(self).arity),
            ok ==> final(self).arrived == old(self).arrived + 1,
            !ok ==> final(self).arrived == old(self).arrived,
    {
        if self.arrived < self.arity {
            self.arrived = self.arrived + 1;
            true
        } else {
            false
        }
    }

    /// Record one departure.  Returns whether the departure was admitted: a
    /// participant may depart only once all `arity` participants have
    /// arrived, and no more than `arity` departures exist.
    pub fn depart(&mut self) -> (ok: bool)
        requires
            old(self).wf(),
        ensures
            final(self).wf(),
            final(self).arity == old(self).arity,
            final(self).arrived == old(self).arrived,
            ok == (old(self).arrived == old(self).arity && old(self).departed < old(self).arity),
            ok ==> final(self).departed == old(self).departed + 1,
            !ok ==> final(self).departed == old(self).departed,
    {
        if self.arrived == self.arity && self.departed < self.arity {
            self.departed = self.departed + 1;
            true
        } else {
            false
        }
    }
}

/// One event at a rendezvous point: a participant finishing phase one
/// (arriving), or a participant starting phase two (departing).
#[derive(Clone, Copy, PartialEq, Eq, Structural, Debug)]
pub enum BarrierOp {
    ArriveOp,
    DepartOp,
}

/// Whether the barrier admits an event in a given state.
pub open spec fn op_enabled(b: PhaseBarrier, op: BarrierOp) -> bool {
    match op {
        BarrierOp::ArriveOp => b.arrived < b.arity,
        BarrierOp::DepartOp => b.arrived == b.arity && b.departed < b.arity,
    }
}

/// The state after an event.
pub open spec fn op_apply(b: PhaseBarrier, op: BarrierOp) -> PhaseBarrier {
    match op {
        BarrierOp::ArriveOp => PhaseBarrier { arrived: (b.arrived + 1) as usize, ..b },
        BarrierOp::DepartOp => PhaseBarrier { departed: (b.departed + 1) as usize, ..b },
    }
}

/// A run is valid when every event was admitted in the state it occurred in.
pub open spec fn valid_run(b: PhaseBarrier, ops: Seq<BarrierOp>) -> bool
    decreases ops.len(),
{
    ops.len() == 0 || (op_enabled(b, ops[0]) && valid_run(op_apply(b, ops[0]), ops.drop_first()))
}

/// How many arrivals a run holds.
pub open spec fn arrive_count(ops: Seq<BarrierOp>) -> nat
    decreases ops.len(),
{
    if ops.len() == 0 {
        0
    } else {
        (if ops[0] is ArriveOp {
            1nat
        } else {
            0nat
        }) + arrive_count(ops.drop_first())
    }
}

proof fn lemma_depart_sees_all_arrivals_from(b: PhaseBarrier, ops: Seq<BarrierOp>, k: int)
    requires
        b.arrived <= b.arity,
        valid_run(b, ops),
        0 <= k < ops.len(),
        ops[k] is DepartOp,
    ensures
        b.arrived + arrive_count(ops.take(k)) == b.arity,
    decreases k,
{
    if k == 0 {
        assert(ops.take(0) =~= Seq::<BarrierOp>::empty());
    } else {
        let b1 = op_apply(b, ops[0]);
        let rest = ops.drop_first();
        assert(rest[k - 1] == ops[k]);
        lemma_depart_sees_all_arrivals_from(b1, rest, k - 1);
        assert(ops.take(k)[0] == ops[0]);
        assert(ops.take(k).drop_first() =~= rest.take(k - 1));
        if ops[0] is DepartOp {
            assert(b.arrived == b.arity);
        }
    }
}

/// LAW — barrier correctness: in every valid run of a fresh barrier of arity
/// `n`, at the moment any participant departs (enters phase two), exactly
/// `n` arrivals (phase-one exits) have already happened.  All `n` roles hold
/// their phase-one state before any role attempts phase two.
pub proof fn lemma_barrier_orders_phases(n: usize, ops: Seq<BarrierOp>, k: int)
    requires
        valid_run(PhaseBarrier { arity: n, arrived: 0, departed: 0 }, ops),
        0 <= k < ops.len(),
        ops[k] is DepartOp,
    ensures
        arrive_count(ops.take(k)) == n,
{
    lemma_depart_sees_all_arrivals_from(PhaseBarrier { arity: n, arrived: 0, departed: 0 }, ops, k);
}

} // verus!
