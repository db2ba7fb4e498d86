use vstd::prelude::*;

use crate::rat::Rat;

verus! {

/// The read-only model configuration: the client population and the service,
/// phase-selection, routing, think-time and time-slice parameters, all as
/// exact rationals.
#[derive(Clone, Copy, Debug)]
pub struct Params {
    /// Total number of clients circulating in the closed network.
    pub numclients: u64,
    /// Phase-1 selection weight.
    pub alpha: Rat,
    /// Phase-2 selection weight.
    pub beta: Rat,
    /// CPU phase-1 service rate.
    pub u1: Rat,
    /// CPU phase-2 service rate.
    pub u2: Rat,
    /// Routing weight out of the CPU back to itself.
    pub qouts: Rat,
    /// Routing weight out of the CPU to I/O device 1.
    pub qio1: Rat,
    /// Routing weight out of the CPU to I/O device 2.
    pub qio2: Rat,
    /// Routing weight out of the CPU to the delay station.
    pub qoutd: Rat,
    /// Service rate of I/O device 1.
    pub sio1: Rat,
    /// Service rate of I/O device 2.
    pub sio2: Rat,
    /// Mean think time at the delay station.
    pub thinktime: Rat,
    /// CPU time-slice duration.
    pub timeslice: Rat,
}

/// A configuration parameter is a strictly positive rational whose numerator
/// and denominator both fit comfortably in a machine word, so that every
/// rate formula can be evaluated exactly without overflow.
pub open spec fn param_ok(r: Rat) -> bool {
    &&& 1 <= r.num <= 65536
    &&& 1 <= r.den <= 65536
}

impl Params {
    /// Well-formedness: at least one client, a bounded population, and every
    /// numeric parameter strictly positive and bounded.
    pub open spec fn wf(self) -> bool {
        &&& 1 <= self.numclients <= 65536
        &&& param_ok(self.alpha)
        &&& param_ok(self.beta)
        &&& param_ok(self.u1)
        &&& param_ok(self.u2)
        &&& param_ok(self.qouts)
        &&& param_ok(self.qio1)
        &&& param_ok(self.qio2)
        &&& param_ok(self.qoutd)
        &&& param_ok(self.sio1)
        &&& param_ok(self.sio2)
        &&& param_ok(self.thinktime)
        &&& param_ok(self.timeslice)
    }

    /// Decides well-formedness at run time.
    pub fn is_wf(&self) -> (r: bool)
        ensures
            r == self.wf(),
    {
        1 <= self.numclients && self.numclients <= 65536 && Self::param_in_range(&self.alpha)
            && Self::param_in_range(&self.beta) && Self::param_in_range(&self.u1)
            && Self::param_in_range(&self.u2) && Self::param_in_range(&self.qouts)
            && Self::param_in_range(&self.qio1) && Self::param_in_range(&self.qio2)
            && Self::param_in_range(&self.qoutd) && Self::param_in_range(&self.sio1)
            && Self::param_in_range(&self.sio2) && Self::param_in_range(&self.thinktime)
            && Self::param_in_range(&self.timeslice)
    }

    fn param_in_range(r: &Rat) -> (b: bool)
        ensures
            b == param_ok(*r),
    {
        1 <= r.num && r.num <= 65536 && 1 <= r.den && r.den <= 65536
    }
}

} // verus!
