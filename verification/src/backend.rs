//! Identity of the lock backend under test.
//!
//! One backend is selected per run; every role of a scenario goes through the
//! same backend, so results of different runs are comparable.  The backend
//! itself (its locks and its monitor callback) is an external collaborator;
//! the library only carries its identity into file names and log records.

use vstd::prelude::*;

verus! {

/// The lock backend a run is exercising.  `Deloxide` variants differ only in
/// how aggressively the detector's own stress modes perturb scheduling.
#[derive(Clone, Copy, PartialEq, Eq, Structural, Debug)]
pub enum Backend {
    Deloxide,
    StressRandom,
    StressComponent,
    StressAggressive,
    StressGentle,
    DeloxideLockOrder,
    ParkingLot,
    NoDeadlocks,
    StdSync,
}

impl Backend {
    /// The identifier under which this backend appears in file names and logs.
    pub open spec fn spec_name(self) -> Seq<char> {
        match self {
            Backend::Deloxide => "deloxide"@,
            Backend::StressRandom => "stress_random"@,
            Backend::StressComponent => "stress_component"@,
            Backend::StressAggressive => "stress_aggressive"@,
            Backend::StressGentle => "stress_gentle"@,
            Backend::DeloxideLockOrder => "deloxide_lock_order"@,
            Backend::ParkingLot => "parking_lot"@,
            Backend::NoDeadlocks => "no_deadlocks"@,
            Backend::StdSync => "std"@,
        }
    }
}

/// Backend identifier used when naming result files.
pub fn feature_name(backend: Backend) -> (r: &'static str)
    ensures
        r@ == backend.spec_name(),
{
    match backend {
        Backend::Deloxide => "deloxide",
        Backend::StressRandom => "stress_random",
        Backend::StressComponent => "stress_component",
        Backend::StressAggressive => "stress_aggressive",
        Backend::StressGentle => "stress_gentle",
        Backend::DeloxideLockOrder => "deloxide_lock_order",
        Backend::ParkingLot => "parking_lot",
        Backend::NoDeadlocks => "no_deadlocks",
        Backend::StdSync => "std",
    }
}

/// Wall-clock deadline of the arbitration engine, in milliseconds.
pub fn timeout_duration() -> (r: u64)
    ensures
        r == 10000u64,
{
    10000
}

} // verus!
