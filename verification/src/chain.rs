use vstd::prelude::*;

use std::collections::VecDeque;

use crate::generator::NodeGenerator;
use crate::graph::{clone_states, Graph};
use crate::params::Params;
use crate::state::{spec_state_space, spec_valid, State};
use crate::transition::{spec_classify, Transition, TransitionType};

verus! {

/// Position `i` of the visited list has an earlier predecessor with a
/// classified transition into it.
pub open spec fn has_pred(ord: Seq<State>, i: int) -> bool {
    exists|j: int|
        0 <= j < i && spec_classify(#[trigger] ord[j], ord[i]) != TransitionType::Unknown
}

/// The edge value the chain builder records for a classified ordered pair:
/// head, tail, their classification, no rate computed yet.
pub open spec fn chain_edge(h: State, t: State) -> Transition {
    Transition { t_type: spec_classify(h, t), head: h, tail: t, rate: None }
}

/// The classified successors of `s` among the universe states, in
/// enumeration order.
pub open spec fn spec_succs(s: State, uni: Seq<State>) -> Seq<State>
    decreases uni.len(),
{
    if uni.len() == 0 {
        Seq::empty()
    } else {
        let rest = spec_succs(s, uni.drop_last());
        if spec_classify(s, uni.last()) != TransitionType::Unknown {
            rest.push(uni.last())
        } else {
            rest
        }
    }
}

/// The edges one expansion of `s` appends, in enumeration order.
pub open spec fn spec_succ_edges(s: State, uni: Seq<State>) -> Seq<Transition>
    decreases uni.len(),
{
    if uni.len() == 0 {
        Seq::empty()
    } else {
        let rest = spec_succ_edges(s, uni.drop_last());
        if spec_classify(s, uni.last()) != TransitionType::Unknown {
            rest.push(chain_edge(s, uni.last()))
        } else {
            rest
        }
    }
}

/// A state has at most as many classified successors as the universe holds.
proof fn lemma_succs_len(s: State, uni: Seq<State>)
    ensures
        spec_succs(s, uni).len() <= uni.len(),
    decreases uni.len(),
{
    if uni.len() > 0 {
        lemma_succs_len(s, uni.drop_last());
    }
}

/// The breadth-first walk as a mathematical function: pop the front of the
/// frontier; a state already visited is dropped, any other is expanded, its
/// classified successors queued at the back in enumeration order and their
/// edges appended.  The fuel only serves termination; with enough of it the
/// walk runs until the frontier empties.
pub open spec fn spec_walk(
    uni: Seq<State>,
    frontier: Seq<State>,
    ordered: Seq<State>,
    edges: Seq<Transition>,
    fuel: nat,
) -> (Seq<State>, Seq<Transition>)
    decreases fuel,
{
    if frontier.len() == 0 || fuel == 0 {
        (ordered, edges)
    } else {
        let s = frontier[0];
        if ordered.contains(s) {
            spec_walk(uni, frontier.drop_first(), ordered, edges, (fuel - 1) as nat)
        } else {
            spec_walk(
                uni,
                frontier.drop_first() + spec_succs(s, uni),
                ordered.push(s),
                edges + spec_succ_edges(s, uni),
                (fuel - 1) as nat,
            )
        }
    }
}

/// The canonical walk: the seed alone on the frontier, nothing visited, and
/// fuel that outlasts every possible expansion.  This pins the breadth-first
/// discovery order of the chain builder completely.
pub open spec fn spec_bfs(uni: Seq<State>, seed: State) -> (Seq<State>, Seq<Transition>) {
    spec_walk(
        uni,
        seq![seed],
        Seq::empty(),
        Seq::empty(),
        ((uni.len() + 1) * (uni.len() + 1)) as nat,
    )
}

pub(crate) fn vec_contains_state(v: &Vec<State>, s: &State) -> (r: bool)
    ensures
        r == v@.contains(*s),
{
    let mut i: usize = 0;
    while i < v.len()
        invariant
            i <= v@.len(),
            forall|k: int| 0 <= k < i ==> v@[k] != *s,
        decreases v@.len() - i,
    {
        if v[i] == *s {
            proof {
                assert(v@[i as int] == *s);
            }
            return true;
        }
        i += 1;
    }
    proof {
        if v@.contains(*s) {
            let k = choose|k: int| 0 <= k < v@.len() && v@[k] == *s;
            assert(false);
        }
    }
    false
}

/// A duplicate-free sequence whose elements all lie in a universe sequence,
/// or equal one extra element, is no longer than the universe plus one.
proof fn lemma_ordered_bound(ordered: Seq<State>, uni: Seq<State>, seed: State)
    requires
        ordered.no_duplicates(),
        forall|k: int|
            0 <= k < ordered.len() ==> #[trigger] ordered[k] == seed || uni.to_set().contains(
                ordered[k],
            ),
    ensures
        ordered.len() <= uni.len() + 1,
{
    broadcast use vstd::set::group_set_axioms;
    broadcast use vstd::seq_lib::seq_to_set_is_finite;

    ordered.unique_seq_to_set();
    let big = uni.push(seed);
    big.lemma_cardinality_of_set();
    assert forall|x: State| ordered.to_set().contains(x) implies big.to_set().contains(x) by {
        if x == seed {
            assert(big[uni.len() as int] == x);
        } else {
            let k = choose|k: int| 0 <= k < uni.len() && uni[k] == x;
            assert(big[k] == x);
        }
        assert(big.contains(x));
    }
    vstd::set_lib::lemma_len_subset(ordered.to_set(), big.to_set());
}

/// After the front state is popped, every classified successor of an already
/// expanded state is still accounted for: it is visited, still queued, or is
/// the state just popped.
proof fn lemma_closure_after_pop(uni: Seq<State>, ord0: Seq<State>, fr_pre: Seq<State>, s: State)
    requires
        fr_pre.len() > 0,
        s == fr_pre[0],
        forall|i: int, k: int|
            0 <= i < ord0.len() && 0 <= k < uni.len() && spec_classify(
                #[trigger] ord0[i],
                #[trigger] uni[k],
            ) != TransitionType::Unknown ==> ord0.contains(uni[k]) || fr_pre.contains(uni[k]),
    ensures
        forall|i: int, k: int|
            0 <= i < ord0.len() && 0 <= k < uni.len() && spec_classify(
                #[trigger] ord0[i],
                #[trigger] uni[k],
            ) != TransitionType::Unknown ==> ord0.contains(uni[k])
                || fr_pre.drop_first().contains(uni[k]) || uni[k] == s,
{
    assert forall|i: int, k: int|
        0 <= i < ord0.len() && 0 <= k < uni.len() && spec_classify(
            #[trigger] ord0[i],
            #[trigger] uni[k],
        ) != TransitionType::Unknown implies ord0.contains(uni[k]) || fr_pre.drop_first().contains(
        uni[k],
    ) || uni[k] == s by {
        if !ord0.contains(uni[k]) && uni[k] != s {
            let idx = choose|idx: int| 0 <= idx < fr_pre.len() && fr_pre[idx] == uni[k];
            assert(idx > 0);
            assert(fr_pre.drop_first()[idx - 1] == uni[k]);
        }
    }
}

/// Recording one classified successor keeps the edge list duplicate-free and
/// preserves everything already queued or recorded.
proof fn lemma_record_successor(
    s: State,
    node: State,
    n: int,
    k: int,
    uni: Seq<State>,
    ord0: Seq<State>,
    e0: Seq<Transition>,
    es_before: Seq<Transition>,
    fr_before: Seq<State>,
)
    requires
        0 <= k < uni.len(),
        uni.no_duplicates(),
        uni.to_set() == spec_state_space(n),
        node == uni[k],
        spec_classify(s, node) != TransitionType::Unknown,
        !ord0.contains(s),
        forall|t: Transition|
            es_before.contains(t) ==> e0.contains(t) || (t.head == s && exists|kk: int|
                0 <= kk < k && uni[kk] == t.tail && t == chain_edge(s, t.tail) && spec_classify(
                    s,
                    t.tail,
                ) != TransitionType::Unknown),
        forall|t: Transition|
            e0.contains(t) ==> ord0.contains(t.head) && spec_valid(t.tail, n) && t == chain_edge(
                t.head,
                t.tail,
            ) && t.t_type != TransitionType::Unknown,
        es_before.no_duplicates(),
    ensures
        spec_valid(node, n),
        uni.to_set().contains(node),
        es_before.push(chain_edge(s, node)).no_duplicates(),
        forall|t: Transition|
            es_before.contains(t) ==> es_before.push(chain_edge(s, node)).contains(t),
        es_before.push(chain_edge(s, node)).contains(chain_edge(s, node)),
        forall|x: State| fr_before.contains(x) ==> fr_before.push(node).contains(x),
        fr_before.push(node).contains(node),
{
    let tr = chain_edge(s, node);
    let es1 = es_before.push(tr);
    let fr1 = fr_before.push(node);
    assert(uni.contains(node));
    assert(uni.to_set().contains(node));
    assert(spec_state_space(n).contains(node));
    assert(!es_before.contains(tr)) by {
        if es_before.contains(tr) {
            if e0.contains(tr) {
                assert(ord0.contains(tr.head));
                assert(false);
            } else {
                let kk = choose|kk: int|
                    0 <= kk < k && uni[kk] == tr.tail && tr == chain_edge(s, tr.tail)
                        && spec_classify(s, tr.tail) != TransitionType::Unknown;
                assert(uni[kk] == uni[k]);
                assert(false);
            }
        }
    }
    assert(es1.no_duplicates()) by {
        assert forall|i: int, j: int|
            0 <= i < es1.len() && 0 <= j < es1.len() && i != j implies es1[i] != es1[j] by {
            if i < es_before.len() && j < es_before.len() {
            } else if j == es_before.len() {
                assert(es_before[i] == es1[i]);
                assert(es_before.contains(es_before[i]));
            } else {
                assert(es_before[j] == es1[j]);
                assert(es_before.contains(es_before[j]));
            }
        }
    }
    assert forall|x: State| fr_before.contains(x) implies fr1.contains(x) by {
        let kk = choose|kk: int| 0 <= kk < fr_before.len() && fr_before[kk] == x;
        assert(fr1[kk] == x);
    }
    assert forall|t: Transition| es_before.contains(t) implies es1.contains(t) by {
        let kk = choose|kk: int| 0 <= kk < es_before.len() && es_before[kk] == t;
        assert(es1[kk] == t);
    }
    assert(fr1[fr_before.len() as int] == node);
    assert(es1[es_before.len() as int] == tr);
}

/// After one breadth-first expansion of a state `s` drawn from the frontier,
/// the walk invariant holds again with `s` appended to the visited list.
proof fn lemma_expansion_reestablishes(
    seed: State,
    s: State,
    n: int,
    uni: Seq<State>,
    ord0: Seq<State>,
    f0: Seq<State>,
    fr1: Seq<State>,
    e0: Seq<Transition>,
    es1: Seq<Transition>,
)
    requires
        uni.to_set() == spec_state_space(n),
        ord0.no_duplicates(),
        !ord0.contains(s),
        s == seed || spec_valid(s, n),
        s == seed || exists|j: int|
            0 <= j < ord0.len() && spec_classify(#[trigger] ord0[j], s) != TransitionType::Unknown,
        ord0.len() == 0 ==> s == seed,
        ord0.len() > 0 ==> ord0[0] == seed,
        forall|k: int| 0 <= k < ord0.len() ==> #[trigger] ord0[k] == seed || spec_valid(ord0[k], n),
        forall|i: int| 0 < i < ord0.len() ==> #[trigger] has_pred(ord0, i),
        forall|kk: int|
            0 <= kk < f0.len() ==> (#[trigger] f0[kk] == seed || spec_valid(f0[kk], n)) && (f0[kk]
                == seed || exists|j: int|
                0 <= j < ord0.len() && spec_classify(#[trigger] ord0[j], f0[kk])
                    != TransitionType::Unknown),
        forall|kk: int|
            0 <= kk < fr1.len() ==> f0.contains(#[trigger] fr1[kk]) || (uni.to_set().contains(
                fr1[kk],
            ) && spec_classify(s, fr1[kk]) != TransitionType::Unknown),
        forall|kk: int|
            0 <= kk < uni.len() && spec_classify(s, #[trigger] uni[kk]) != TransitionType::Unknown
                ==> fr1.contains(uni[kk]) && es1.contains(chain_edge(s, uni[kk])),
        forall|i: int, kk: int|
            0 <= i < ord0.len() && 0 <= kk < uni.len() && spec_classify(
                #[trigger] ord0[i],
                #[trigger] uni[kk],
            ) != TransitionType::Unknown ==> ord0.contains(uni[kk]) || fr1.contains(uni[kk])
                || uni[kk] == s,
        forall|t: Transition|
            es1.contains(t) ==> e0.contains(t) || (t.head == s && exists|kk: int|
                0 <= kk < uni.len() && uni[kk] == t.tail && t == chain_edge(s, t.tail)
                    && spec_classify(s, t.tail) != TransitionType::Unknown),
        forall|t: Transition| e0.contains(t) ==> es1.contains(t),
        forall|t: Transition|
            e0.contains(t) ==> ord0.contains(t.head) && spec_valid(t.tail, n) && t == chain_edge(
                t.head,
                t.tail,
            ) && t.t_type != TransitionType::Unknown,
        forall|i: int, kk: int|
            0 <= i < ord0.len() && 0 <= kk < uni.len() && spec_classify(
                #[trigger] ord0[i],
                #[trigger] uni[kk],
            ) != TransitionType::Unknown ==> e0.contains(chain_edge(ord0[i], uni[kk])),
    ensures
        ord0.push(s).no_duplicates(),
        ord0.push(s)[0] == seed,
        forall|k: int|
            0 <= k < ord0.push(s).len() ==> #[trigger] ord0.push(s)[k] == seed || spec_valid(
                ord0.push(s)[k],
                n,
            ),
        forall|i: int| 0 < i < ord0.push(s).len() ==> #[trigger] has_pred(ord0.push(s), i),
        forall|kk: int|
            0 <= kk < fr1.len() ==> (#[trigger] fr1[kk] == seed || spec_valid(fr1[kk], n)) && (
            fr1[kk] == seed || exists|j: int|
                0 <= j < ord0.push(s).len() && spec_classify(#[trigger] ord0.push(s)[j], fr1[kk])
                    != TransitionType::Unknown),
        forall|i: int, kk: int|
            0 <= i < ord0.push(s).len() && 0 <= kk < uni.len() && spec_classify(
                #[trigger] ord0.push(s)[i],
                #[trigger] uni[kk],
            ) != TransitionType::Unknown ==> ord0.push(s).contains(uni[kk]) || fr1.contains(
                uni[kk],
            ),
        forall|i: int, kk: int|
            0 <= i < ord0.push(s).len() && 0 <= kk < uni.len() && spec_classify(
                #[trigger] ord0.push(s)[i],
                #[trigger] uni[kk],
            ) != TransitionType::Unknown ==> es1.contains(chain_edge(ord0.push(s)[i], uni[kk])),
        forall|t: Transition|
            es1.contains(t) ==> ord0.push(s).contains(t.head) && spec_valid(t.tail, n) && t
                == chain_edge(t.head, t.tail) && t.t_type != TransitionType::Unknown,
{
    let ord1 = ord0.push(s);
    assert(ord1[ord0.len() as int] == s);
    assert(ord1.no_duplicates()) by {
        assert forall|i: int, j: int|
            0 <= i < ord1.len() && 0 <= j < ord1.len() && i != j implies ord1[i] != ord1[j] by {
            if i < ord0.len() && j < ord0.len() {
            } else if j == ord0.len() {
                assert(ord0[i] == ord1[i]);
                assert(ord0.contains(ord0[i]));
            } else {
                assert(ord0[j] == ord1[j]);
                assert(ord0.contains(ord0[j]));
            }
        }
    }
    if ord0.len() > 0 {
        assert(ord1[0] == ord0[0]);
    }
    assert forall|i: int| 0 < i < ord1.len() implies #[trigger] has_pred(ord1, i) by {
        if i < ord0.len() {
            assert(has_pred(ord0, i));
            let j = choose|j: int|
                0 <= j < i && spec_classify(#[trigger] ord0[j], ord0[i])
                    != TransitionType::Unknown;
            assert(ord1[j] == ord0[j] && ord1[i] == ord0[i]);
            assert(spec_classify(ord1[j], ord1[i]) != TransitionType::Unknown);
        } else {
            assert(i == ord0.len());
            assert(s != seed) by {
                if s == seed {
                    assert(ord0[0] == seed);
                    assert(ord0.contains(s));
                }
            }
            let j = choose|j: int|
                0 <= j < ord0.len() && spec_classify(#[trigger] ord0[j], s)
                    != TransitionType::Unknown;
            assert(ord1[j] == ord0[j]);
            assert(spec_classify(ord1[j], ord1[i]) != TransitionType::Unknown);
        }
    }
    assert forall|kk: int| 0 <= kk < fr1.len() implies (#[trigger] fr1[kk] == seed || spec_valid(
        fr1[kk],
        n,
    )) && (fr1[kk] == seed || exists|j: int|
        0 <= j < ord1.len() && spec_classify(#[trigger] ord1[j], fr1[kk])
            != TransitionType::Unknown) by {
        if f0.contains(fr1[kk]) {
            let idx = choose|idx: int| 0 <= idx < f0.len() && f0[idx] == fr1[kk];
            if f0[idx] != seed {
                let j = choose|j: int|
                    0 <= j < ord0.len() && spec_classify(#[trigger] ord0[j], f0[idx])
                        != TransitionType::Unknown;
                assert(ord1[j] == ord0[j]);
                assert(spec_classify(ord1[j], fr1[kk]) != TransitionType::Unknown);
            }
        } else {
            assert(uni.to_set().contains(fr1[kk]) && spec_classify(s, fr1[kk])
                != TransitionType::Unknown);
            assert(spec_state_space(n).contains(fr1[kk]));
            assert(spec_classify(ord1[ord0.len() as int], fr1[kk]) != TransitionType::Unknown);
        }
    }
    assert forall|i: int, kk: int|
        0 <= i < ord1.len() && 0 <= kk < uni.len() && spec_classify(
            #[trigger] ord1[i],
            #[trigger] uni[kk],
        ) != TransitionType::Unknown implies ord1.contains(uni[kk]) || fr1.contains(uni[kk]) by {
        if i < ord0.len() {
            assert(ord1[i] == ord0[i]);
            if ord0.contains(uni[kk]) {
                let idx = choose|idx: int| 0 <= idx < ord0.len() && ord0[idx] == uni[kk];
                assert(ord1[idx] == uni[kk]);
            } else if uni[kk] == s {
                assert(ord1[ord0.len() as int] == uni[kk]);
            }
        } else {
            assert(ord1[i] == s);
        }
    }
    assert forall|i: int, kk: int|
        0 <= i < ord1.len() && 0 <= kk < uni.len() && spec_classify(
            #[trigger] ord1[i],
            #[trigger] uni[kk],
        ) != TransitionType::Unknown implies es1.contains(chain_edge(ord1[i], uni[kk])) by {
        if i < ord0.len() {
            assert(ord1[i] == ord0[i]);
            assert(e0.contains(chain_edge(ord0[i], uni[kk])));
        } else {
            assert(ord1[i] == s);
        }
    }
    assert forall|t: Transition| es1.contains(t) implies ord1.contains(t.head) && spec_valid(
        t.tail,
        n,
    ) && t == chain_edge(t.head, t.tail) && t.t_type != TransitionType::Unknown by {
        if e0.contains(t) {
            let idx = choose|idx: int| 0 <= idx < ord0.len() && ord0[idx] == t.head;
            assert(ord1[idx] == t.head);
        } else {
            assert(t.head == s);
            assert(ord1[ord0.len() as int] == t.head);
            assert(spec_state_space(n).contains(t.tail)) by {
                let kk = choose|kk: int|
                    0 <= kk < uni.len() && uni[kk] == t.tail && t == chain_edge(s, t.tail)
                        && spec_classify(s, t.tail) != TransitionType::Unknown;
                assert(uni.contains(t.tail));
                assert(uni.to_set().contains(t.tail));
            }
        }
    }
}

/// The Reachability Chain Builder: starting from one seed state, performs a
/// breadth-first walk using the enumerator's full candidate set as the
/// universe of possible successors, producing a deterministically ordered
/// reachable subgraph.
pub struct ChainGenerator {
    /// Total number of clients circulating in the network.
    pub population: u64,
    /// Supplies the candidate successor universe.
    pub node_generator: NodeGenerator,
    /// The reachable subgraph built so far.
    pub graph: Graph,
    /// The breadth-first frontier queue.
    pub frontier: VecDeque<State>,
    /// States in the order they were first expanded: the canonical node
    /// order of the resulting graph.
    pub ordered: Vec<State>,
}

impl ChainGenerator {
    /// Mid-walk well-formedness of the builder, relative to the seed state.
    pub open spec fn inv(self, seed: State) -> bool {
        let n = self.population as int;
        let uni = self.node_generator.generated@;
        let ord = self.ordered@;
        let fr = self.frontier@;
        let es = self.graph.edges@;
        &&& self.node_generator.population == self.population
        &&& uni.to_set() == spec_state_space(n)
        &&& uni.no_duplicates()
        &&& ord.no_duplicates()
        &&& (ord.len() == 0 ==> fr == seq![seed])
        &&& (ord.len() > 0 ==> ord[0] == seed)
        &&& forall|k: int| 0 <= k < ord.len() ==> #[trigger] ord[k] == seed || spec_valid(ord[k], n)
        &&& forall|k: int| 0 <= k < fr.len() ==> #[trigger] fr[k] == seed || spec_valid(fr[k], n)
        &&& forall|k: int|
            0 <= k < fr.len() ==> #[trigger] fr[k] == seed || exists|j: int|
                0 <= j < ord.len() && spec_classify(#[trigger] ord[j], fr[k])
                    != TransitionType::Unknown
        &&& forall|i: int| 0 < i < ord.len() ==> #[trigger] has_pred(ord, i)
        &&& forall|i: int, k: int|
            0 <= i < ord.len() && 0 <= k < uni.len() && spec_classify(
                #[trigger] ord[i],
                #[trigger] uni[k],
            ) != TransitionType::Unknown ==> ord.contains(uni[k]) || fr.contains(uni[k])
        &&& forall|t: Transition|
            es.contains(t) ==> ord.contains(t.head) && spec_valid(t.tail, n) && t == chain_edge(
                t.head,
                t.tail,
            ) && t.t_type != TransitionType::Unknown
        &&& forall|i: int, k: int|
            0 <= i < ord.len() && 0 <= k < uni.len() && spec_classify(
                #[trigger] ord[i],
                #[trigger] uni[k],
            ) != TransitionType::Unknown ==> es.contains(chain_edge(ord[i], uni[k]))
        &&& es.no_duplicates()
        &&& self.graph.nodes@.len() == 0
    }

    /// A fresh builder for the given client population.
    pub fn new(population: u64) -> (r: ChainGenerator)
        ensures
            r.population == population,
            r.node_generator.population == population,
            r.node_generator.generated@.len() == 0,
            r.graph.nodes@.len() == 0,
            r.graph.edges@.len() == 0,
            r.frontier@.len() == 0,
            r.ordered@.len() == 0,
    {
        ChainGenerator {
            population,
            node_generator: NodeGenerator::new(population),
            graph: Graph::new(),
            frontier: VecDeque::new(),
            ordered: Vec::new(),
        }
    }

    /// Records one expansion: every classified successor of `s` from the
    /// universe is pushed onto the back of the frontier, in enumeration
    /// order, with one edge per successor appended to the graph.
    #[verifier::rlimit(100)]
    fn record_successors(&mut self, s: State)
        requires
            old(self).node_generator.generated@.to_set() == spec_state_space(
                old(self).population as int,
            ),
            old(self).node_generator.generated@.no_duplicates(),
            !old(self).ordered@.contains(s),
            forall|t: Transition|
                old(self).graph.edges@.contains(t) ==> old(self).ordered@.contains(t.head)
                    && spec_valid(t.tail, old(self).population as int) && t == chain_edge(
                    t.head,
                    t.tail,
                ) && t.t_type != TransitionType::Unknown,
            old(self).graph.edges@.no_duplicates(),
        ensures
            final (self).population == old(self).population,
            final (self).node_generator.generated@ == old(self).node_generator.generated@,
            final (self).node_generator.population == old(self).node_generator.population,
            final (self).ordered@ == old(self).ordered@,
            final (self).graph.nodes@ == old(self).graph.nodes@,
            final (self).frontier@ == old(self).frontier@ + spec_succs(
                s,
                old(self).node_generator.generated@,
            ),
            final (self).graph.edges@ == old(self).graph.edges@ + spec_succ_edges(
                s,
                old(self).node_generator.generated@,
            ),
            forall|kk: int|
                0 <= kk < old(self).node_generator.generated@.len() && spec_classify(
                    s,
                    #[trigger] old(self).node_generator.generated@[kk],
                ) != TransitionType::Unknown ==> final (self).frontier@.contains(
                    old(self).node_generator.generated@[kk],
                ) && final (self).graph.edges@.contains(
                    chain_edge(s, old(self).node_generator.generated@[kk]),
                ),
            forall|x: State| old(self).frontier@.contains(x) ==> final (self).frontier@.contains(x),
            forall|kk: int|
                0 <= kk < final (self).frontier@.len() ==> old(self).frontier@.contains(
                    #[trigger] final (self).frontier@[kk],
                ) || (old(self).node_generator.generated@.to_set().contains(
                    final (self).frontier@[kk],
                ) && spec_classify(s, final (self).frontier@[kk]) != TransitionType::Unknown),
            forall|t: Transition|
                final (self).graph.edges@.contains(t) ==> old(self).graph.edges@.contains(t) || (
                t.head == s && exists|kk: int|
                    0 <= kk < old(self).node_generator.generated@.len() && old(
                        self,
                    ).node_generator.generated@[kk] == t.tail && t == chain_edge(s, t.tail)
                        && spec_classify(s, t.tail) != TransitionType::Unknown),
            forall|t: Transition|
                old(self).graph.edges@.contains(t) ==> final (self).graph.edges@.contains(t),
            final (self).graph.edges@.no_duplicates(),
    {
        let ghost n = self.population as int;
        let ghost uni = self.node_generator.generated@;
        let ghost ord0 = self.ordered@;
        let ghost f0 = self.frontier@;
        let ghost e0 = self.graph.edges@;
        let ghost nodes0 = self.graph.nodes@;
        let ghost ngp0 = self.node_generator.population;
        proof {
            assert(f0 + spec_succs(s, uni.take(0)) =~= f0);
            assert(e0 + spec_succ_edges(s, uni.take(0)) =~= e0);
        }
        let glen = self.node_generator.generated.len();
        let mut k: usize = 0;
        while k < glen
            invariant
                k <= glen,
                glen == uni.len(),
                self.population as int == n,
                self.node_generator.population == ngp0,
                self.node_generator.generated@ == uni,
                uni.to_set() == spec_state_space(n),
                uni.no_duplicates(),
                self.ordered@ == ord0,
                self.graph.nodes@ == nodes0,
                !ord0.contains(s),
                self.frontier@ == f0 + spec_succs(s, uni.take(k as int)),
                self.graph.edges@ == e0 + spec_succ_edges(s, uni.take(k as int)),
                forall|kk: int|
                    0 <= kk < k && spec_classify(s, #[trigger] uni[kk]) != TransitionType::Unknown
                        ==> self.frontier@.contains(uni[kk]) && self.graph.edges@.contains(
                        chain_edge(s, uni[kk]),
                    ),
                forall|x: State| f0.contains(x) ==> self.frontier@.contains(x),
                forall|kk: int|
                    0 <= kk < self.frontier@.len() ==> f0.contains(#[trigger] self.frontier@[kk])
                        || (uni.to_set().contains(self.frontier@[kk]) && spec_classify(
                        s,
                        self.frontier@[kk],
                    ) != TransitionType::Unknown),
                forall|t: Transition|
                    self.graph.edges@.contains(t) ==> e0.contains(t) || (t.head == s && exists|
                        kk: int,
                    |
                        0 <= kk < k && uni[kk] == t.tail && t == chain_edge(s, t.tail)
                            && spec_classify(s, t.tail) != TransitionType::Unknown),
                forall|t: Transition| e0.contains(t) ==> self.graph.edges@.contains(t),
                forall|t: Transition|
                    e0.contains(t) ==> ord0.contains(t.head) && spec_valid(t.tail, n) && t
                        == chain_edge(t.head, t.tail) && t.t_type != TransitionType::Unknown,
                self.graph.edges@.no_duplicates(),
            decreases glen - k,
        {
            let node = self.node_generator.generated[k];
            let ghost es_before = self.graph.edges@;
            let ghost fr_before = self.frontier@;
            let mut tr = Transition::new(s, node);
            if tr.is_valid() {
                self.frontier.push_back(node);
                self.graph.add_edge(tr);
                proof {
                    assert(uni[k as int] == node);
                    assert(tr == chain_edge(s, node));
                    lemma_record_successor(
                        s,
                        node,
                        n,
                        k as int,
                        uni,
                        ord0,
                        e0,
                        es_before,
                        fr_before,
                    );
                    assert(self.graph.edges@ == es_before.push(tr));
                    assert(self.frontier@ == fr_before.push(node));
                    assert(uni.take(k as int + 1).drop_last() =~= uni.take(k as int));
                    assert(uni.take(k as int + 1).last() == uni[k as int]);
                    assert(spec_succs(s, uni.take(k as int + 1)) == spec_succs(
                        s,
                        uni.take(k as int),
                    ).push(node));
                    assert(spec_succ_edges(s, uni.take(k as int + 1)) == spec_succ_edges(
                        s,
                        uni.take(k as int),
                    ).push(tr));
                    assert(self.frontier@ =~= f0 + spec_succs(s, uni.take(k as int + 1)));
                    assert(self.graph.edges@ =~= e0 + spec_succ_edges(s, uni.take(k as int + 1)));
                }
            } else {
                proof {
                    assert(uni[k as int] == node);
                    assert(spec_classify(s, node) == TransitionType::Unknown);
                    assert(uni.take(k as int + 1).drop_last() =~= uni.take(k as int));
                    assert(uni.take(k as int + 1).last() == uni[k as int]);
                    assert(spec_succs(s, uni.take(k as int + 1)) == spec_succs(
                        s,
                        uni.take(k as int),
                    ));
                    assert(spec_succ_edges(s, uni.take(k as int + 1)) == spec_succ_edges(
                        s,
                        uni.take(k as int),
                    ));
                }
            }
            k += 1;
        }
        proof {
            assert(uni.take(glen as int) =~= uni);
        }
    }

    /// Expands one frontier state: if it was already expanded it is dropped;
    /// otherwise every classified successor from the universe is pushed onto
    /// the frontier and recorded as an edge, and the state joins the ordered
    /// visited list.
    #[verifier::rlimit(100)]
    fn next(&mut self, Ghost(seed): Ghost<State>)
        requires
            old(self).inv(seed),
            old(self).frontier@.len() > 0,
        ensures
            final (self).inv(seed),
            final (self).population == old(self).population,
            final (self).node_generator.generated@ == old(self).node_generator.generated@,
            final (self).node_generator.population == old(self).node_generator.population,
            (final (self).ordered@ == old(self).ordered@ && final (self).frontier@.len() < old(
                self,
            ).frontier@.len()) || final (self).ordered@.len() == old(self).ordered@.len() + 1,
            final (self).graph.nodes@ == old(self).graph.nodes@,
            old(self).ordered@.contains(old(self).frontier@[0]) ==> {
                &&& final (self).ordered@ == old(self).ordered@
                &&& final (self).frontier@ == old(self).frontier@.drop_first()
                &&& final (self).graph.edges@ == old(self).graph.edges@
            },
            !old(self).ordered@.contains(old(self).frontier@[0]) ==> {
                &&& final (self).ordered@ == old(self).ordered@.push(old(self).frontier@[0])
                &&& final (self).frontier@ == old(self).frontier@.drop_first() + spec_succs(
                    old(self).frontier@[0],
                    old(self).node_generator.generated@,
                )
                &&& final (self).graph.edges@ == old(self).graph.edges@ + spec_succ_edges(
                    old(self).frontier@[0],
                    old(self).node_generator.generated@,
                )
            },
    {
        let ghost n = self.population as int;
        let ghost uni = self.node_generator.generated@;
        let ghost fr_pre = self.frontier@;
        let ghost ord0 = self.ordered@;
        let ghost e0 = self.graph.edges@;
        let s = self.frontier.pop_front().unwrap();
        let ghost f0 = self.frontier@;
        proof {
            assert(s == fr_pre[0]);
            assert(f0 =~= fr_pre.drop_first());
            assert forall|x: State| f0.contains(x) implies fr_pre.contains(x) by {
                let k = choose|k: int| 0 <= k < f0.len() && f0[k] == x;
                assert(fr_pre[k + 1] == x);
            }
            assert forall|k: int| 0 <= k < f0.len() implies (#[trigger] f0[k] == seed || spec_valid(
                f0[k],
                n,
            )) && (f0[k] == seed || exists|j: int|
                0 <= j < ord0.len() && spec_classify(#[trigger] ord0[j], f0[k])
                    != TransitionType::Unknown) by {
                assert(fr_pre[k + 1] == f0[k]);
            }
        }
        if vec_contains_state(&self.ordered, &s) {
            proof {
                lemma_closure_after_pop(uni, ord0, fr_pre, s);
                assert(ord0.len() > 0);
                assert(self.graph.nodes@ =~= old(self).graph.nodes@);
            }
            return ;
        }
        proof {
            assert(s == seed || spec_valid(s, n));
            assert(s == seed || exists|j: int|
                0 <= j < ord0.len() && spec_classify(#[trigger] ord0[j], s)
                    != TransitionType::Unknown);
            assert(ord0.len() == 0 ==> s == seed);
            lemma_closure_after_pop(uni, ord0, fr_pre, s);
        }
        self.record_successors(s);
        proof {
            assert forall|i: int, kk: int|
                0 <= i < ord0.len() && 0 <= kk < uni.len() && spec_classify(
                    #[trigger] ord0[i],
                    #[trigger] uni[kk],
                ) != TransitionType::Unknown implies ord0.contains(uni[kk])
                || self.frontier@.contains(uni[kk]) || uni[kk] == s by {
                if !ord0.contains(uni[kk]) && uni[kk] != s {
                    assert(f0.contains(uni[kk]));
                }
            }
        }
        let appended = !vec_contains_state(&self.ordered, &s);
        if appended {
            self.ordered.push(s);
        }
        proof {
            lemma_expansion_reestablishes(
                seed,
                s,
                n,
                uni,
                ord0,
                f0,
                self.frontier@,
                e0,
                self.graph.edges@,
            );
            assert(self.ordered@ == ord0.push(s));
            assert(self.frontier@ == fr_pre.drop_first() + spec_succs(s, uni));
            assert(self.graph.edges@ == e0 + spec_succ_edges(s, uni));
            assert(self.graph.nodes@ =~= old(self).graph.nodes@);
        }
    }

    /// Runs the full breadth-first walk from the seed state.  On return the
    /// ordered visited list and the edge list are exactly what the canonical
    /// walk `spec_bfs` yields over the enumerated universe — which pins the
    /// breadth-first discovery order completely.  In addition the visited
    /// list heads with the seed, contains no duplicates, is closed under
    /// classified transitions into the universe, every later state has an
    /// earlier predecessor, and the graph holds exactly one classified edge
    /// per expanded state and classified successor, its node order being the
    /// visited order.
    pub fn generate(&mut self, starter: State)
        requires
            old(self).node_generator.population == old(self).population,
            old(self).node_generator.generated@.len() == 0,
            old(self).ordered@.len() == 0,
            old(self).frontier@.len() == 0,
            old(self).graph.edges@.len() == 0,
            old(self).graph.nodes@.len() == 0,
            1 <= old(self).population <= 65536,
        ensures
            final (self).population == old(self).population,
            final (self).node_generator.generated@.to_set() == spec_state_space(
                old(self).population as int,
            ),
            final (self).ordered@.len() >= 1,
            final (self).ordered@[0] == starter,
            final (self).ordered@.no_duplicates(),
            forall|k: int|
                0 <= k < final (self).ordered@.len() ==> #[trigger] final (self).ordered@[k]
                    == starter || spec_valid(final (self).ordered@[k], old(self).population as int),
            forall|i: int, c: State|
                0 <= i < final (self).ordered@.len() && spec_valid(c, old(self).population as int)
                    && #[trigger] spec_classify(final (self).ordered@[i], c)
                    != TransitionType::Unknown ==> final (self).ordered@.contains(c),
            forall|i: int|
                0 < i < final (self).ordered@.len() ==> #[trigger] has_pred(
                    final (self).ordered@,
                    i,
                ),
            final (self).graph.nodes@ == final (self).ordered@,
            forall|t: Transition|
                final (self).graph.edges@.contains(t) ==> final (self).ordered@.contains(t.head)
                    && spec_valid(t.tail, old(self).population as int) && t == chain_edge(
                    t.head,
                    t.tail,
                ) && t.t_type != TransitionType::Unknown,
            forall|i: int, c: State|
                0 <= i < final (self).ordered@.len() && spec_valid(c, old(self).population as int)
                    && #[trigger] spec_classify(final (self).ordered@[i], c)
                    != TransitionType::Unknown ==> final (self).graph.edges@.contains(
                    chain_edge(final (self).ordered@[i], c),
                ),
            final (self).graph.edges@.no_duplicates(),
            forall|p: Params|
                #[trigger] p.wf() && p.numclients == final (self).population && spec_valid(
                    starter,
                    old(self).population as int,
                ) ==> final (self).graph.edges_ready(p),
            final (self).frontier@.len() == 0,
            (final (self).ordered@, final (self).graph.edges@) == spec_bfs(
                final (self).node_generator.generated@,
                starter,
            ),
    {
        let ghost n = self.population as int;
        let ghost pop0 = self.population;
        self.node_generator.generate();
        self.frontier.push_back(starter);
        let ghost uni0 = self.node_generator.generated@;
        let ghost fuel_total = ((uni0.len() + 1) * (uni0.len() + 1)) as nat;
        let ghost mut it: nat = 0;
        proof {
            assert(self.frontier@ =~= seq![starter]);
            assert(self.inv(starter));
            assert(self.ordered@ =~= Seq::<State>::empty());
            assert(self.graph.edges@ =~= Seq::<Transition>::empty());
            assert(self.ordered@.len() * uni0.len() == 0) by (nonlinear_arith)
                requires
                    self.ordered@.len() == 0,
            ;
            assert(fuel_total >= 1) by (nonlinear_arith)
                requires
                    fuel_total == (uni0.len() + 1) * (uni0.len() + 1),
            ;
        }
        while self.frontier.len() > 0
            invariant
                self.population == pop0,
                n == pop0 as int,
                self.inv(starter),
                self.node_generator.generated@ == uni0,
                it <= fuel_total,
                fuel_total == (uni0.len() + 1) * (uni0.len() + 1),
                it + self.frontier@.len() <= 1 + self.ordered@.len() * uni0.len(),
                spec_walk(uni0, seq![starter], Seq::empty(), Seq::empty(), fuel_total)
                    == spec_walk(
                    uni0,
                    self.frontier@,
                    self.ordered@,
                    self.graph.edges@,
                    (fuel_total - it) as nat,
                ),
            decreases self.node_generator.generated@.len() + 1 - self.ordered@.len(),
                self.frontier@.len(),
        {
            let ghost uni = self.node_generator.generated@;
            let ghost fr_old = self.frontier@;
            let ghost ord_old = self.ordered@;
            let ghost es_old = self.graph.edges@;
            let ghost s_front = fr_old[0];
            let ghost fuel_rem = (fuel_total - it) as nat;
            proof {
                assert forall|k: int| 0 <= k < self.ordered@.len() implies #[trigger] self.ordered@[k]
                    == starter || uni.to_set().contains(self.ordered@[k]) by {
                    if self.ordered@[k] != starter {
                        assert(spec_valid(self.ordered@[k], n));
                        assert(spec_state_space(n).contains(self.ordered@[k]));
                    }
                }
                lemma_ordered_bound(self.ordered@, uni, starter);
                // fuel cannot run out before the frontier empties
                assert(ord_old.len() * uni0.len() <= (uni0.len() + 1) * uni0.len())
                    by (nonlinear_arith)
                    requires
                        ord_old.len() <= uni0.len() + 1,
                        uni0.len() >= 0,
                ;
                assert((uni0.len() + 1) * uni0.len() + 1 <= (uni0.len() + 1) * (uni0.len() + 1))
                    by (nonlinear_arith);
                assert(it < fuel_total);
                assert(fuel_rem >= 1);
            }
            self.next(Ghost(starter));
            proof {
                if ord_old.contains(s_front) {
                    assert(spec_walk(uni0, fr_old, ord_old, es_old, fuel_rem) == spec_walk(
                        uni0,
                        fr_old.drop_first(),
                        ord_old,
                        es_old,
                        (fuel_rem - 1) as nat,
                    ));
                } else {
                    assert(spec_walk(uni0, fr_old, ord_old, es_old, fuel_rem) == spec_walk(
                        uni0,
                        fr_old.drop_first() + spec_succs(s_front, uni0),
                        ord_old.push(s_front),
                        es_old + spec_succ_edges(s_front, uni0),
                        (fuel_rem - 1) as nat,
                    ));
                    lemma_succs_len(s_front, uni0);
                    assert((ord_old.len() + 1) * uni0.len() == ord_old.len() * uni0.len()
                        + uni0.len()) by (nonlinear_arith);
                }
                it = it + 1;
                assert((fuel_total - it) as nat == (fuel_rem - 1) as nat);
                assert forall|k: int| 0 <= k < self.ordered@.len() implies #[trigger] self.ordered@[k]
                    == starter || uni.to_set().contains(self.ordered@[k]) by {
                    if self.ordered@[k] != starter {
                        assert(spec_valid(self.ordered@[k], n));
                        assert(spec_state_space(n).contains(self.ordered@[k]));
                    }
                }
                lemma_ordered_bound(self.ordered@, uni, starter);
            }
        }
        proof {
            assert(spec_walk(
                uni0,
                self.frontier@,
                self.ordered@,
                self.graph.edges@,
                (fuel_total - it) as nat,
            ) == (self.ordered@, self.graph.edges@));
            assert((self.ordered@, self.graph.edges@) == spec_bfs(uni0, starter));
        }
        self.graph.nodes = clone_states(&self.ordered);
        proof {
            let uni = self.node_generator.generated@;
            let ord = self.ordered@;
            let es = self.graph.edges@;
            assert(ord.len() >= 1);
            assert forall|i: int, c: State|
                0 <= i < ord.len() && spec_valid(c, n) && #[trigger] spec_classify(ord[i], c)
                    != TransitionType::Unknown implies ord.contains(c) && es.contains(
                chain_edge(ord[i], c),
            ) by {
                assert(spec_state_space(n).contains(c));
                assert(uni.to_set().contains(c));
                let kk = choose|kk: int| 0 <= kk < uni.len() && uni[kk] == c;
                assert(spec_classify(ord[i], uni[kk]) != TransitionType::Unknown);
                assert(ord.contains(uni[kk]) || self.frontier@.contains(uni[kk]));
            }
            assert forall|p: Params|
                #[trigger] p.wf() && p.numclients == self.population && spec_valid(
                    starter,
                    n,
                ) implies self.graph.edges_ready(p) by {
                assert forall|k: int| 0 <= k < es.len() implies (#[trigger] es[k]).rate_ready(
                    p,
                ) by {
                    let t = es[k];
                    assert(es.contains(t));
                    let idx = choose|idx: int| 0 <= idx < ord.len() && ord[idx] == t.head;
                    assert(ord[idx] == starter || spec_valid(ord[idx], n));
                    assert(spec_valid(t.head, p.numclients as int));
                    assert(spec_valid(t.tail, p.numclients as int));
                }
            }
        }
    }

    /// The visited list, in the order states were first expanded.
    pub fn ordered(&self) -> (r: &Vec<State>)
        ensures
            r@ == self.ordered@,
    {
        &self.ordered
    }

    /// A copy of the reachable subgraph built by the walk.
    pub fn graph(&self) -> (g: Graph)
        ensures
            g.nodes@ == self.graph.nodes@,
            g.edges@ == self.graph.edges@,
    {
        self.graph.duplicate()
    }
}

} // verus!
