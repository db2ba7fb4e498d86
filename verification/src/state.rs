use vstd::prelude::*;

use crate::text::{dec_u64, spec_dec};

verus! {

/// One configuration of the closed network: how many clients sit at the
/// delay (think-time) station, at the CPU and at the two I/O devices,
/// together with the CPU service phase.  The phase is meaningful only while
/// the CPU is occupied; with an empty CPU it is held at the canonical value 1
/// so that "CPU empty" is a single state rather than two near-duplicates.
#[derive(Clone, Copy, PartialEq, Eq, Structural, Debug)]
pub struct State {
    pub n_delay: u64,
    pub n_cpu: u64,
    pub n_io1: u64,
    pub n_io2: u64,
    pub cpu_stage: u64,
}

/// A state is structurally valid for a population exactly when the four
/// counts sum to the population, the phase tag is 1 or 2, and an empty CPU
/// carries the canonical phase 1.
pub open spec fn spec_valid(s: State, population: int) -> bool {
    &&& s.n_delay + s.n_cpu + s.n_io1 + s.n_io2 == population
    &&& (s.cpu_stage == 1 || s.cpu_stage == 2)
    &&& (s.n_cpu == 0 ==> s.cpu_stage == 1)
}

/// Every structurally valid state of the network for the given population.
pub open spec fn spec_state_space(population: int) -> Set<State> {
    Set::new(|s: State| spec_valid(s, population))
}

/// The stable textual label of a state used by both text exports: the four
/// counts and the phase as decimal numbers joined by dashes.
pub open spec fn spec_label(s: State) -> Seq<char> {
    spec_dec(s.n_delay as int) + seq!['-'] + spec_dec(s.n_cpu as int) + seq!['-'] + spec_dec(
        s.n_io1 as int,
    ) + seq!['-'] + spec_dec(s.n_io2 as int) + seq!['-'] + spec_dec(s.cpu_stage as int)
}

impl State {
    /// Builds a state from the four counts and a phase tag.  An empty CPU is
    /// canonicalised to phase 1.
    pub fn new(n_delay: u64, n_cpu: u64, n_io1: u64, n_io2: u64, cpu_stage: u64) -> (r: State)
        ensures
            r.n_delay == n_delay,
            r.n_cpu == n_cpu,
            r.n_io1 == n_io1,
            r.n_io2 == n_io2,
            r.cpu_stage == if n_cpu == 0 { 1u64 } else { cpu_stage },
    {
        let stage: u64 = if n_cpu == 0 { 1 } else { cpu_stage };
        State { n_delay, n_cpu, n_io1, n_io2, cpu_stage: stage }
    }

    /// Decides structural validity for the given client population.
    pub fn is_valid(&self, population: u64) -> (r: bool)
        ensures
            r == spec_valid(*self, population as int),
    {
        if self.cpu_stage != 1 && self.cpu_stage != 2 {
            return false;
        }
        if self.n_cpu == 0 && self.cpu_stage != 1 {
            return false;
        }
        let mut rem: u64 = population;
        if self.n_delay > rem {
            return false;
        }
        rem = rem - self.n_delay;
        if self.n_cpu > rem {
            return false;
        }
        rem = rem - self.n_cpu;
        if self.n_io1 > rem {
            return false;
        }
        rem = rem - self.n_io1;
        if self.n_io2 > rem {
            return false;
        }
        rem = rem - self.n_io2;
        rem == 0
    }

    /// Renders the stable, unique label of this state.
    pub fn to_graph_element(&self) -> (r: String)
        ensures
            r@ == spec_label(*self),
    {
        proof {
            reveal_strlit("-");
        }
        let mut out = dec_u64(self.n_delay);
        out.append("-");
        let part_cpu = dec_u64(self.n_cpu);
        out.append(part_cpu.as_str());
        out.append("-");
        let part_io1 = dec_u64(self.n_io1);
        out.append(part_io1.as_str());
        out.append("-");
        let part_io2 = dec_u64(self.n_io2);
        out.append(part_io2.as_str());
        out.append("-");
        let part_stage = dec_u64(self.cpu_stage);
        out.append(part_stage.as_str());
        proof {
            assert(out@ =~= spec_label(*self));
        }
        out
    }
}

} // verus!
