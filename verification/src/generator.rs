use vstd::prelude::*;

use crate::state::{spec_state_space, spec_valid, State};

verus! {

/// The order in which the enumerator generates states: lexicographic by the
/// four counts (delay first) and then by phase.
pub open spec fn state_lt(a: State, b: State) -> bool {
    ||| a.n_delay < b.n_delay
    ||| (a.n_delay == b.n_delay && a.n_cpu < b.n_cpu)
    ||| (a.n_delay == b.n_delay && a.n_cpu == b.n_cpu && a.n_io1 < b.n_io1)
    ||| (a.n_delay == b.n_delay && a.n_cpu == b.n_cpu && a.n_io1 == b.n_io1 && a.n_io2 < b.n_io2)
    ||| (a.n_delay == b.n_delay && a.n_cpu == b.n_cpu && a.n_io1 == b.n_io1 && a.n_io2 == b.n_io2
        && a.cpu_stage < b.cpu_stage)
}

/// Whether a state's counts come strictly before the combination
/// `(a, b, c, d)` in odometer order.
pub open spec fn combo_lt(s: State, a: int, b: int, c: int, d: int) -> bool {
    ||| (s.n_delay as int) < a
    ||| (s.n_delay == a && (s.n_cpu as int) < b)
    ||| (s.n_delay == a && s.n_cpu == b && (s.n_io1 as int) < c)
    ||| (s.n_delay == a && s.n_cpu == b && s.n_io1 == c && (s.n_io2 as int) < d)
}

/// The valid states whose counts come strictly before `(a, b, c, d)`.
pub open spec fn space_before(n: int, a: int, b: int, c: int, d: int) -> Set<State> {
    Set::new(|s: State| spec_valid(s, n) && combo_lt(s, a, b, c, d))
}

/// Pushing an element onto a sequence inserts it into the sequence's set.
pub(crate) proof fn lemma_to_set_push<A>(s: Seq<A>, x: A)
    ensures
        s.push(x).to_set() =~= s.to_set().insert(x),
{
    broadcast use vstd::set::group_set_axioms;

    assert forall|y: A| s.push(x).to_set().contains(y) implies s.to_set().insert(x).contains(
        y,
    ) by {
        let k = choose|k: int| 0 <= k < s.push(x).len() && s.push(x)[k] == y;
        if k < s.len() {
            assert(s[k] == y);
            assert(s.contains(y));
        }
    }
    assert forall|y: A| s.to_set().insert(x).contains(y) implies s.push(x).to_set().contains(
        y,
    ) by {
        if y == x {
            assert(s.push(x)[s.len() as int] == y);
        } else {
            let k = choose|k: int| 0 <= k < s.len() && s[k] == y;
            assert(s.push(x)[k] == y);
        }
        assert(s.push(x).contains(y));
    }
}

/// The State-Space Enumerator: produces every structurally valid state for a
/// fixed population, in a fixed odometer order, including both CPU-phase
/// variants wherever the CPU is occupied.
pub struct NodeGenerator {
    /// Total number of clients circulating in the network.
    pub population: u64,
    /// The states generated so far, in generation order.
    pub generated: Vec<State>,
}

impl NodeGenerator {
    /// A fresh enumerator for the given client population.
    pub fn new(population: u64) -> (r: NodeGenerator)
        ensures
            r.population == population,
            r.generated@.len() == 0,
    {
        NodeGenerator { population, generated: Vec::new() }
    }

    /// Appends a state, but only if it is structurally valid.
    pub fn add_state(&mut self, state: &State)
        ensures
            final (self).population == old(self).population,
            final (self).generated@ == if spec_valid(*state, old(self).population as int) {
                old(self).generated@.push(*state)
            } else {
                old(self).generated@
            },
    {
        if state.is_valid(self.population) {
            self.generated.push(state.clone());
        }
    }

    /// The position of a state in generation order.  Looking up a state that
    /// was never added is a precondition violation, not a sentinel result.
    pub fn index_of(&self, state: &State) -> (r: usize)
        requires
            self.generated@.contains(*state),
        ensures
            r < self.generated@.len(),
            self.generated@[r as int] == *state,
            forall|k: int| 0 <= k < r ==> self.generated@[k] != *state,
    {
        let mut i: usize = 0;
        while i < self.generated.len()
            invariant
                i <= self.generated@.len(),
                self.generated@.contains(*state),
                forall|k: int| 0 <= k < i ==> self.generated@[k] != *state,
            decreases self.generated@.len() - i,
        {
            if self.generated[i] == *state {
                return i;
            }
            i += 1;
        }
        proof {
            let k = choose|k: int| 0 <= k < self.generated@.len() && self.generated@[k] == *state;
            assert(false);
        }
        vstd::pervasive::unreached()
    }

    /// Populates the enumerator with every structurally valid state, walking
    /// the four counts in odometer order and appending the phase-1 state of
    /// every combination that reaches the population sum, followed by the
    /// phase-2 variant whenever the CPU is occupied.  The result is exactly
    /// the state space, without duplicates, sorted in generation order.
    pub fn generate(&mut self)
        requires
            old(self).generated@.len() == 0,
            1 <= old(self).population <= 65536,
        ensures
            final (self).population == old(self).population,
            final (self).generated@.to_set() == spec_state_space(old(self).population as int),
            final (self).generated@.no_duplicates(),
            forall|i: int, j: int|
                0 <= i < j < final (self).generated@.len() ==> state_lt(
                    final (self).generated@[i],
                    final (self).generated@[j],
                ),
    {
        let n = self.population;
        let ghost ni = n as int;
        proof {
            assert(self.generated@.to_set() =~= space_before(ni, 0, 0, 0, 0));
        }
        let mut a: u64 = 0;
        while a <= n
            invariant
                self.population == n,
                ni == n as int,
                1 <= n <= 65536,
                a <= n + 1,
                self.generated@.to_set() == space_before(ni, a as int, 0, 0, 0),
                forall|k: int|
                    0 <= k < self.generated@.len() ==> combo_lt(
                        self.generated@[k],
                        a as int,
                        0,
                        0,
                        0,
                    ),
                forall|i: int, j: int|
                    0 <= i < j < self.generated@.len() ==> state_lt(
                        self.generated@[i],
                        self.generated@[j],
                    ),
            decreases n + 1 - a,
        {
            let mut b: u64 = 0;
            while b <= n
                invariant
                    self.population == n,
                    ni == n as int,
                    1 <= n <= 65536,
                    a <= n,
                    b <= n + 1,
                    self.generated@.to_set() == space_before(ni, a as int, b as int, 0, 0),
                    forall|k: int|
                        0 <= k < self.generated@.len() ==> combo_lt(
                            self.generated@[k],
                            a as int,
                            b as int,
                            0,
                            0,
                        ),
                    forall|i: int, j: int|
                        0 <= i < j < self.generated@.len() ==> state_lt(
                            self.generated@[i],
                            self.generated@[j],
                        ),
                decreases n + 1 - b,
            {
                let mut c: u64 = 0;
                while c <= n
                    invariant
                        self.population == n,
                        ni == n as int,
                        1 <= n <= 65536,
                        a <= n,
                        b <= n,
                        c <= n + 1,
                        self.generated@.to_set() == space_before(ni, a as int, b as int, c as int, 0),
                        forall|k: int|
                            0 <= k < self.generated@.len() ==> combo_lt(
                                self.generated@[k],
                                a as int,
                                b as int,
                                c as int,
                                0,
                            ),
                        forall|i: int, j: int|
                            0 <= i < j < self.generated@.len() ==> state_lt(
                                self.generated@[i],
                                self.generated@[j],
                            ),
                    decreases n + 1 - c,
                {
                    let mut d: u64 = 0;
                    while d <= n
                        invariant
                            self.population == n,
                            ni == n as int,
                            1 <= n <= 65536,
                            a <= n,
                            b <= n,
                            c <= n,
                            d <= n + 1,
                            self.generated@.to_set() == space_before(
                                ni,
                                a as int,
                                b as int,
                                c as int,
                                d as int,
                            ),
                            forall|k: int|
                                0 <= k < self.generated@.len() ==> combo_lt(
                                    self.generated@[k],
                                    a as int,
                                    b as int,
                                    c as int,
                                    d as int,
                                ),
                            forall|i: int, j: int|
                                0 <= i < j < self.generated@.len() ==> state_lt(
                                    self.generated@[i],
                                    self.generated@[j],
                                ),
                        decreases n + 1 - d,
                    {
                        let st = State::new(a, b, c, d, 1);
                        let ghost g0 = self.generated@;
                        self.add_state(&st);
                        proof {
                            if spec_valid(st, ni) {
                                lemma_to_set_push(g0, st);
                            }
                        }
                        let ghost g1 = self.generated@;
                        if b > 0 {
                            let st2 = State::new(a, b, c, d, 2);
                            self.add_state(&st2);
                            proof {
                                if spec_valid(st2, ni) {
                                    lemma_to_set_push(g1, st2);
                                }
                            }
                        }
                        proof {
                            broadcast use vstd::set::group_set_axioms;

                            let ai = a as int;
                            let bi = b as int;
                            let ci = c as int;
                            let di = d as int;
                            let st_one = State { n_delay: a, n_cpu: b, n_io1: c, n_io2: d, cpu_stage: 1u64 };
                            let st_two = State { n_delay: a, n_cpu: b, n_io1: c, n_io2: d, cpu_stage: 2u64 };
                            let gset = self.generated@.to_set();
                            let target = space_before(ni, ai, bi, ci, di + 1);
                            let sb_d = space_before(ni, ai, bi, ci, di);
                            if ai + bi + ci + di == ni {
                                assert(spec_valid(st_one, ni));
                                assert(st == st_one);
                                assert(g1.to_set() == sb_d.insert(st_one));
                                if b > 0 {
                                    assert(spec_valid(st_two, ni));
                                    assert(gset == sb_d.insert(st_one).insert(st_two));
                                } else {
                                    assert(gset == sb_d.insert(st_one));
                                }
                            } else {
                                assert(!spec_valid(st_one, ni));
                                assert(!spec_valid(st_two, ni));
                                assert(gset == sb_d);
                            }
                            assert forall|s: State| gset.contains(s) implies target.contains(s) by {
                                if space_before(ni, ai, bi, ci, di).contains(s) {
                                    assert(combo_lt(s, ai, bi, ci, di + 1));
                                }
                            }
                            assert forall|s: State| target.contains(s) implies gset.contains(s) by {
                                if combo_lt(s, ai, bi, ci, di) {
                                    assert(space_before(ni, ai, bi, ci, di).contains(s));
                                } else {
                                    assert(s.n_delay == a && s.n_cpu == b && s.n_io1 == c
                                        && s.n_io2 == d);
                                    assert(ai + bi + ci + di == ni);
                                    assert(spec_valid(st_one, ni));
                                    if s.cpu_stage == 1 {
                                        assert(s == st_one);
                                    } else {
                                        assert(s.n_cpu > 0);
                                        assert(spec_valid(st_two, ni));
                                        assert(s == st_two);
                                    }
                                }
                            }
                            assert(gset =~= target);
                        }
                        d = d + 1;
                    }
                    proof {
                        assert(space_before(ni, a as int, b as int, c as int, ni + 1)
                            =~= space_before(ni, a as int, b as int, c as int + 1, 0));
                    }
                    c = c + 1;
                }
                proof {
                    assert(space_before(ni, a as int, b as int, ni + 1, 0) =~= space_before(
                        ni,
                        a as int,
                        b as int + 1,
                        0,
                        0,
                    ));
                }
                b = b + 1;
            }
            proof {
                assert(space_before(ni, a as int, ni + 1, 0, 0) =~= space_before(
                    ni,
                    a as int + 1,
                    0,
                    0,
                    0,
                ));
            }
            a = a + 1;
        }
        proof {
            assert(space_before(ni, ni + 1, 0, 0, 0) =~= spec_state_space(ni));
            assert(self.generated@.no_duplicates()) by {
                assert forall|i: int, j: int|
                    0 <= i < self.generated@.len() && 0 <= j < self.generated@.len() && i
                        != j implies self.generated@[i] != self.generated@[j] by {
                    if i < j {
                        assert(state_lt(self.generated@[i], self.generated@[j]));
                    } else {
                        assert(state_lt(self.generated@[j], self.generated@[i]));
                    }
                }
            }
        }
    }
}

} // verus!
