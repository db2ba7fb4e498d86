use vstd::prelude::*;

use crate::params::Params;
use crate::rat::{rat_eq, rat_zero, Rat, Ratio};
use crate::state::{spec_label, State};
use crate::text::{rat_fixed4, rat_slash, spec_fixed4, spec_fixed4_ok, spec_slash};
use crate::transition::{lemma_rate_bounded, spec_tr_rate, Transition, TransitionType};

verus! {

/// The first edge of the sequence with the given head and tail, by value
/// equality of the endpoint states.
pub open spec fn spec_first_match(edges: Seq<Transition>, h: State, t: State) -> Option<Transition>
    decreases edges.len(),
{
    if edges.len() == 0 {
        None
    } else if edges[0].head == h && edges[0].tail == t {
        Some(edges[0])
    } else {
        spec_first_match(edges.drop_first(), h, t)
    }
}

/// A found first match is an edge of the sequence with the requested
/// endpoints; no match means no edge has them.
pub proof fn lemma_first_match(edges: Seq<Transition>, h: State, t: State)
    ensures
        match spec_first_match(edges, h, t) {
            Some(e) => edges.contains(e) && e.head == h && e.tail == t,
            None => forall|k: int|
                0 <= k < edges.len() ==> !((#[trigger] edges[k]).head == h && edges[k].tail == t),
        },
    decreases edges.len(),
{
    if edges.len() > 0 {
        if edges[0].head == h && edges[0].tail == t {
            assert(edges.contains(edges[0]));
        } else {
            lemma_first_match(edges.drop_first(), h, t);
            match spec_first_match(edges.drop_first(), h, t) {
                Some(e) => {
                    let k = choose|k: int|
                        0 <= k < edges.drop_first().len() && edges.drop_first()[k] == e;
                    assert(edges[k + 1] == e);
                    assert(edges.contains(e));
                },
                None => {
                    assert forall|k: int|
                        0 <= k < edges.len() implies !((#[trigger] edges[k]).head == h && edges[k].tail
                        == t) by {
                        if k > 0 {
                            assert(edges.drop_first()[k - 1] == edges[k]);
                        }
                    }
                },
            }
        }
    }
}

/// The absolute-rate edge a matrix cell gives rise to.
pub open spec fn abs_edge(h: State, t: State, v: Rat) -> Transition {
    Transition { t_type: TransitionType::Absolute, head: h, tail: t, rate: Some(v) }
}

/// The edges a graph rebuilt from a matrix holds: one absolute edge per
/// nonzero cell, row-major, starting at cell (i, j).
pub open spec fn spec_cells(m: Seq<Vec<Rat>>, ns: Seq<State>, i: int, j: int) -> Seq<Transition>
    decreases ns.len() - i, ns.len() - j + 1,
{
    if i < 0 || j < 0 || i >= ns.len() {
        Seq::empty()
    } else if j >= ns.len() {
        spec_cells(m, ns, i + 1, 0)
    } else {
        let rest = spec_cells(m, ns, i, j + 1);
        if m[i]@[j]@.num != 0 {
            seq![abs_edge(ns[i], ns[j], m[i]@[j])] + rest
        } else {
            rest
        }
    }
}

/// A node/edge container over states and classified transitions.  The node
/// sequence is significant: it defines the row and column indices of the
/// rate matrix.
pub struct Graph {
    pub nodes: Vec<State>,
    pub edges: Vec<Transition>,
}

/// The rate-matrix entry for the ordered node pair (i, j): the rate of the
/// first matching edge, or zero if no edge connects them.
pub open spec fn spec_entry(g: Graph, p: Params, i: int, j: int) -> Ratio {
    match spec_first_match(g.edges@, g.nodes@[i], g.nodes@[j]) {
        Some(e) => spec_tr_rate(p, e),
        None => rat_zero(),
    }
}

pub(crate) fn clone_states(v: &Vec<State>) -> (r: Vec<State>)
    ensures
        r@ == v@,
{
    let mut r: Vec<State> = Vec::new();
    let mut i: usize = 0;
    while i < v.len()
        invariant
            i <= v@.len(),
            r@ == v@.take(i as int),
        decreases v@.len() - i,
    {
        r.push(v[i]);
        proof {
            assert(r@ =~= v@.take(i as int + 1));
        }
        i += 1;
    }
    proof {
        assert(v@.take(v@.len() as int) =~= v@);
    }
    r
}

pub(crate) fn clone_transitions(v: &Vec<Transition>) -> (r: Vec<Transition>)
    ensures
        r@ == v@,
{
    let mut r: Vec<Transition> = Vec::new();
    let mut i: usize = 0;
    while i < v.len()
        invariant
            i <= v@.len(),
            r@ == v@.take(i as int),
        decreases v@.len() - i,
    {
        r.push(v[i]);
        proof {
            assert(r@ =~= v@.take(i as int + 1));
        }
        i += 1;
    }
    proof {
        assert(v@.take(v@.len() as int) =~= v@);
    }
    r
}

impl Graph {
    /// Every edge of the graph can yield a rate.
    pub open spec fn edges_ready(self, p: Params) -> bool {
        forall|k: int|
            0 <= k < self.edges@.len() ==> (#[trigger] self.edges@[k]).rate_ready(p)
    }

    /// Every absolute edge carries a value small enough to render with four
    /// decimal places (classified edges are bounded by construction).
    pub open spec fn abs_edges_renderable(self, p: Params) -> bool {
        forall|k: int|
            0 <= k < self.edges@.len() && (#[trigger] self.edges@[k]).t_type
                == TransitionType::Absolute ==> spec_fixed4_ok(spec_tr_rate(p, self.edges@[k]))
    }

    /// An empty graph.
    pub fn new() -> (g: Graph)
        ensures
            g.nodes@.len() == 0,
            g.edges@.len() == 0,
    {
        Graph { nodes: Vec::new(), edges: Vec::new() }
    }

    /// Appends an edge; no deduplication (lookups return the first match).
    pub fn add_edge(&mut self, transition: Transition)
        ensures
            final (self).nodes@ == old(self).nodes@,
            final (self).edges@ == old(self).edges@.push(transition),
    {
        self.edges.push(transition);
    }

    /// The first edge from `head` to `tail`, by value equality, if any.
    pub fn get_transition(&self, head: &State, tail: &State) -> (r: Option<Transition>)
        ensures
            r == spec_first_match(self.edges@, *head, *tail),
    {
        let ghost all = self.edges@;
        proof {
            assert(all.skip(0) =~= all);
        }
        let mut i: usize = 0;
        while i < self.edges.len()
            invariant
                i <= all.len(),
                all == self.edges@,
                spec_first_match(all, *head, *tail) == spec_first_match(
                    all.skip(i as int),
                    *head,
                    *tail,
                ),
            decreases all.len() - i,
        {
            let e = self.edges[i];
            proof {
                assert(all.skip(i as int)[0] == all[i as int]);
            }
            if e.head == *head && e.tail == *tail {
                return Some(e);
            }
            proof {
                assert(all.skip(i as int).drop_first() =~= all.skip(i as int + 1));
            }
            i += 1;
        }
        proof {
            assert(all.skip(i as int).len() == 0);
        }
        None
    }

    pub fn nodes(&self) -> (r: &Vec<State>)
        ensures
            r@ == self.nodes@,
    {
        &self.nodes
    }

    pub fn edges(&self) -> (r: &Vec<Transition>)
        ensures
            r@ == self.edges@,
    {
        &self.edges
    }

    /// A deep copy of the graph.
    pub fn duplicate(&self) -> (g: Graph)
        ensures
            g.nodes@ == self.nodes@,
            g.edges@ == self.edges@,
    {
        Graph { nodes: clone_states(&self.nodes), edges: clone_transitions(&self.edges) }
    }

    /// The dense rate matrix: cell (i, j) is the rate of the first edge from
    /// node i to node j, or zero when no edge connects them.
    pub fn adj_matrix(&self, p: &Params) -> (m: Vec<Vec<Rat>>)
        requires
            p.wf(),
            self.edges_ready(*p),
        ensures
            m@.len() == self.nodes@.len(),
            forall|i: int| 0 <= i < m@.len() ==> (#[trigger] m@[i])@.len() == self.nodes@.len(),
            forall|i: int, j: int|
                0 <= i < m@.len() && 0 <= j < m@.len() ==> (#[trigger] m@[i]@[j])@ == spec_entry(
                    *self,
                    *p,
                    i,
                    j,
                ),
            forall|i: int, j: int|
                0 <= i < m@.len() && 0 <= j < m@.len() ==> (#[trigger] m@[i]@[j]).wf(),
    {
        let n = self.nodes.len();
        let mut m: Vec<Vec<Rat>> = Vec::new();
        let mut i: usize = 0;
        while i < n
            invariant
                p.wf(),
                self.edges_ready(*p),
                n == self.nodes@.len(),
                i <= n,
                m@.len() == i,
                forall|i2: int| 0 <= i2 < i ==> (#[trigger] m@[i2])@.len() == n,
                forall|i2: int, j2: int|
                    0 <= i2 < i && 0 <= j2 < n ==> (#[trigger] m@[i2]@[j2])@ == spec_entry(
                        *self,
                        *p,
                        i2,
                        j2,
                    ),
                forall|i2: int, j2: int|
                    0 <= i2 < i && 0 <= j2 < n ==> (#[trigger] m@[i2]@[j2]).wf(),
            decreases n - i,
        {
            let mut row: Vec<Rat> = Vec::new();
            let mut j: usize = 0;
            while j < n
                invariant
                    p.wf(),
                    self.edges_ready(*p),
                    n == self.nodes@.len(),
                    i < n,
                    j <= n,
                    row@.len() == j,
                    forall|j2: int|
                        0 <= j2 < j ==> (#[trigger] row@[j2])@ == spec_entry(*self, *p, i as int, j2),
                    forall|j2: int| 0 <= j2 < j ==> (#[trigger] row@[j2]).wf(),
                decreases n - j,
            {
                let found = self.get_transition(&self.nodes[i], &self.nodes[j]);
                let v = match found {
                    None => Rat::zero(),
                    Some(e) => {
                        let mut e = e;
                        proof {
                            lemma_first_match(self.edges@, self.nodes@[i as int], self.nodes@[j as int]);
                            let k = choose|k: int|
                                0 <= k < self.edges@.len() && self.edges@[k] == e;
                            assert(self.edges@[k].rate_ready(*p));
                        }
                        e.probability(p)
                    },
                };
                row.push(v);
                j += 1;
            }
            m.push(row);
            i += 1;
        }
        m
    }

    /// The inverse of `adj_matrix`: for every nonzero cell (i, j) an
    /// absolute-rate edge between nodes i and j with exactly that value, the
    /// node order taken from the given list.  Zero cells are never
    /// materialised as edges.
    pub fn from_adj_matrix(data: &Vec<Vec<Rat>>, nodes: &Vec<State>) -> (g: Graph)
        requires
            data@.len() == nodes@.len(),
            forall|i: int| 0 <= i < data@.len() ==> (#[trigger] data@[i])@.len() == nodes@.len(),
            forall|i: int, j: int|
                0 <= i < data@.len() && 0 <= j < data@.len() ==> (#[trigger] data@[i]@[j]).wf(),
        ensures
            g.nodes@ == nodes@,
            g.edges@ == spec_cells(data@, nodes@, 0, 0),
    {
        let mut g = Graph::new();
        let n = nodes.len();
        let mut i: usize = 0;
        while i < n
            invariant
                n == nodes@.len(),
                n == data@.len(),
                forall|k: int| 0 <= k < n ==> (#[trigger] data@[k])@.len() == n,
                forall|k: int, l: int|
                    0 <= k < n && 0 <= l < n ==> (#[trigger] data@[k]@[l]).wf(),
                i <= n,
                g.nodes@.len() == 0,
                g.edges@ + spec_cells(data@, nodes@, i as int, 0) == spec_cells(data@, nodes@, 0, 0),
            decreases n - i,
        {
            let mut j: usize = 0;
            while j < n
                invariant
                    n == nodes@.len(),
                    n == data@.len(),
                    forall|k: int| 0 <= k < n ==> (#[trigger] data@[k])@.len() == n,
                    forall|k: int, l: int|
                        0 <= k < n && 0 <= l < n ==> (#[trigger] data@[k]@[l]).wf(),
                    i < n,
                    j <= n,
                    g.nodes@.len() == 0,
                    g.edges@ + spec_cells(data@, nodes@, i as int, j as int) == spec_cells(
                        data@,
                        nodes@,
                        0,
                        0,
                    ),
                decreases n - j,
            {
                let ghost e0 = g.edges@;
                let cell = data[i][j];
                if !cell.is_zero() {
                    g.add_edge(Transition::from_value(nodes[i], nodes[j], cell));
                    proof {
                        let tr = abs_edge(nodes@[i as int], nodes@[j as int], cell);
                        assert(spec_cells(data@, nodes@, i as int, j as int) == seq![tr]
                            + spec_cells(data@, nodes@, i as int, j as int + 1));
                        assert(g.edges@ =~= e0 + seq![tr]);
                        assert(g.edges@ + spec_cells(data@, nodes@, i as int, j as int + 1) =~= e0
                            + spec_cells(data@, nodes@, i as int, j as int));
                    }
                } else {
                    proof {
                        assert(spec_cells(data@, nodes@, i as int, j as int) == spec_cells(
                            data@,
                            nodes@,
                            i as int,
                            j as int + 1,
                        ));
                    }
                }
                j += 1;
            }
            proof {
                assert(spec_cells(data@, nodes@, i as int, n as int) == spec_cells(
                    data@,
                    nodes@,
                    i as int + 1,
                    0,
                ));
            }
            i += 1;
        }
        proof {
            assert(spec_cells(data@, nodes@, n as int, 0) =~= Seq::<Transition>::empty());
            assert(g.edges@ + spec_cells(data@, nodes@, n as int, 0) =~= g.edges@);
        }
        g.nodes = clone_states(nodes);
        g
    }
}

/// One data line of the flow-chart export: head label, tail label and the
/// exact rate, comma-separated.
pub open spec fn spec_flow_line(p: Params, e: Transition) -> Seq<char> {
    spec_label(e.head) + ","@ + spec_label(e.tail) + ","@ + spec_slash(spec_tr_rate(p, e))
}

/// The flow-chart export: a header line followed by one line per edge.
pub open spec fn spec_flow_chart(p: Params, edges: Seq<Transition>) -> Seq<char>
    decreases edges.len(),
{
    if edges.len() == 0 {
        "source,target,value"@
    } else {
        spec_flow_chart(p, edges.drop_last()) + "\n"@ + spec_flow_line(p, edges.last())
    }
}

/// One edge line of the DOT export, the rate rounded to four decimal places.
pub open spec fn spec_dot_line(p: Params, e: Transition) -> Seq<char> {
    "\""@ + spec_label(e.head) + "\"->\""@ + spec_label(e.tail) + "\"[label=\""@ + spec_fixed4(
        spec_tr_rate(p, e),
    ) + "\"]"@
}

/// The DOT export without its closing brace: a graph header, two layout
/// directives and one line per edge.
pub open spec fn spec_dot_body(p: Params, edges: Seq<Transition>) -> Seq<char>
    decreases edges.len(),
{
    if edges.len() == 0 {
        "digraph {"@ + "\n"@ + "rankdir=TB"@ + "\n"@ + "overlap=scale"@
    } else {
        spec_dot_body(p, edges.drop_last()) + "\n"@ + spec_dot_line(p, edges.last())
    }
}

/// The full DOT export.
pub open spec fn spec_dot(p: Params, edges: Seq<Transition>) -> Seq<char> {
    spec_dot_body(p, edges) + "\n"@ + "}"@
}

impl Graph {
    /// Renders the edges as a flow chart: the header `source,target,value`,
    /// then one comma-separated line per edge with the exact rate.
    pub fn to_flow_chart(&self, p: &Params) -> (r: String)
        requires
            p.wf(),
            self.edges_ready(*p),
        ensures
            r@ == spec_flow_chart(*p, self.edges@),
    {
        let mut out = "source,target,value".to_owned();
        proof {
            assert(self.edges@.take(0).len() == 0);
        }
        let mut k: usize = 0;
        while k < self.edges.len()
            invariant
                p.wf(),
                self.edges_ready(*p),
                k <= self.edges@.len(),
                out@ == spec_flow_chart(*p, self.edges@.take(k as int)),
            decreases self.edges@.len() - k,
        {
            let mut e = self.edges[k];
            proof {
                assert(self.edges@[k as int].rate_ready(*p));
            }
            let v = e.probability(p);
            out.append("\n");
            let lh = e.head.to_graph_element();
            out.append(lh.as_str());
            out.append(",");
            let lt = e.tail.to_graph_element();
            out.append(lt.as_str());
            out.append(",");
            let lr = rat_slash(v);
            out.append(lr.as_str());
            proof {
                assert(self.edges@.take(k as int + 1).drop_last() =~= self.edges@.take(k as int));
                assert(self.edges@.take(k as int + 1).last() == self.edges@[k as int]);
                assert(out@ =~= spec_flow_chart(*p, self.edges@.take(k as int + 1)));
            }
            k += 1;
        }
        proof {
            assert(self.edges@.take(self.edges@.len() as int) =~= self.edges@);
        }
        out
    }

    /// Renders the edges as a DOT directed-graph description, with each edge
    /// labelled by its rate to four decimal places.
    pub fn to_dot(&self, p: &Params) -> (r: String)
        requires
            p.wf(),
            self.edges_ready(*p),
            self.abs_edges_renderable(*p),
        ensures
            r@ == spec_dot(*p, self.edges@),
    {
        let mut out = "digraph {".to_owned();
        out.append("\n");
        out.append("rankdir=TB");
        out.append("\n");
        out.append("overlap=scale");
        proof {
            assert(self.edges@.take(0).len() == 0);
            assert(out@ == spec_dot_body(*p, self.edges@.take(0)));
        }
        let mut k: usize = 0;
        while k < self.edges.len()
            invariant
                p.wf(),
                self.edges_ready(*p),
                self.abs_edges_renderable(*p),
                k <= self.edges@.len(),
                out@ == spec_dot_body(*p, self.edges@.take(k as int)),
            decreases self.edges@.len() - k,
        {
            let mut e = self.edges[k];
            proof {
                assert(self.edges@[k as int].rate_ready(*p));
                if e.t_type != TransitionType::Absolute {
                    lemma_rate_bounded(*p, e.head, e.tail);
                }
            }
            let v = e.probability(p);
            out.append("\n");
            out.append("\"");
            let lh = e.head.to_graph_element();
            out.append(lh.as_str());
            out.append("\"->\"");
            let lt = e.tail.to_graph_element();
            out.append(lt.as_str());
            out.append("\"[label=\"");
            let lr = rat_fixed4(v);
            out.append(lr.as_str());
            out.append("\"]");
            proof {
                assert(self.edges@.take(k as int + 1).drop_last() =~= self.edges@.take(k as int));
                assert(self.edges@.take(k as int + 1).last() == self.edges@[k as int]);
                assert(out@ =~= spec_dot_body(*p, self.edges@.take(k as int + 1)));
            }
            k += 1;
        }
        out.append("\n");
        out.append("}");
        proof {
            assert(self.edges@.take(self.edges@.len() as int) =~= self.edges@);
            assert(out@ =~= spec_dot(*p, self.edges@));
        }
        out
    }
}

/// First-match lookup over the rebuilt edge list.  The hypothesis is value
/// coherence: cells agree wherever node values agree, which holds of every
/// matrix `adj_matrix` produces, since its cells depend on the node values
/// alone.  The edge found for the node pair (i, j), if any, carries exactly
/// the value of cell (i, j); a zero cell yields no edge at all.
proof fn lemma_cells_first_match(
    m: Seq<Vec<Rat>>,
    ns: Seq<State>,
    a: int,
    b: int,
    i: int,
    j: int,
)
    requires
        m.len() == ns.len(),
        forall|k: int| 0 <= k < m.len() ==> (#[trigger] m[k])@.len() == ns.len(),
        forall|x: int, y: int, x2: int, y2: int|
            #![trigger m[x]@[y], m[x2]@[y2]]
            0 <= x < ns.len() && 0 <= y < ns.len() && 0 <= x2 < ns.len() && 0 <= y2 < ns.len()
                && ns[x] == ns[x2] && ns[y] == ns[y2] ==> m[x]@[y] == m[x2]@[y2],
        0 <= a,
        0 <= b <= ns.len(),
        0 <= i < ns.len(),
        0 <= j < ns.len(),
    ensures
        m[i]@[j]@.num == 0 ==> spec_first_match(spec_cells(m, ns, a, b), ns[i], ns[j]) is None,
        m[i]@[j]@.num != 0 && (i > a || (i == a && j >= b)) ==> spec_first_match(
            spec_cells(m, ns, a, b),
            ns[i],
            ns[j],
        ) == Some(abs_edge(ns[i], ns[j], m[i]@[j])),
    decreases ns.len() - a, ns.len() - b + 1,
{
    if a >= ns.len() {
        assert(spec_cells(m, ns, a, b) =~= Seq::<Transition>::empty());
    } else if b == ns.len() {
        lemma_cells_first_match(m, ns, a + 1, 0, i, j);
    } else {
        let rest = spec_cells(m, ns, a, b + 1);
        lemma_cells_first_match(m, ns, a, b + 1, i, j);
        if m[a]@[b]@.num != 0 {
            let tr = abs_edge(ns[a], ns[b], m[a]@[b]);
            let cells = seq![tr] + rest;
            assert(spec_cells(m, ns, a, b) == cells);
            assert(cells[0] == tr);
            assert(cells.drop_first() =~= rest);
            if ns[a] == ns[i] && ns[b] == ns[j] {
                // value coherence: the head cell carries the value of (i, j)
                assert(m[a]@[b] == m[i]@[j]);
                assert(spec_first_match(cells, ns[i], ns[j]) == Some(tr));
                assert(tr == abs_edge(ns[i], ns[j], m[i]@[j]));
            } else {
                assert(spec_first_match(cells, ns[i], ns[j]) == spec_first_match(
                    rest,
                    ns[i],
                    ns[j],
                ));
            }
        }
    }
}

/// Round-trip law: rebuilding a graph from its own rate matrix over the same
/// node ordering reproduces exactly the nonzero entries of that matrix — the
/// rebuilt graph's rate matrix equals the original one, cell by cell, as
/// rational values.  No assumption on the node list is needed: states are
/// nodes by value equality, so value-equal duplicates carry equal cells.
pub proof fn lemma_round_trip(g: Graph, p: Params, m: Seq<Vec<Rat>>, g2: Graph)
    requires
        p.wf(),
        m.len() == g.nodes@.len(),
        forall|i: int| 0 <= i < m.len() ==> (#[trigger] m[i])@.len() == g.nodes@.len(),
        forall|i: int, j: int|
            0 <= i < m.len() && 0 <= j < m.len() ==> (#[trigger] m[i]@[j])@ == spec_entry(
                g,
                p,
                i,
                j,
            ),
        g2.nodes@ == g.nodes@,
        g2.edges@ == spec_cells(m, g.nodes@, 0, 0),
    ensures
        forall|i: int, j: int|
            0 <= i < g.nodes@.len() && 0 <= j < g.nodes@.len() ==> rat_eq(
                #[trigger] spec_entry(g2, p, i, j),
                spec_entry(g, p, i, j),
            ),
{
    let ns = g.nodes@;
    assert forall|x: int, y: int, x2: int, y2: int|
        #![trigger m[x]@[y], m[x2]@[y2]]
        0 <= x < ns.len() && 0 <= y < ns.len() && 0 <= x2 < ns.len() && 0 <= y2 < ns.len() && ns[x]
            == ns[x2] && ns[y] == ns[y2] implies m[x]@[y] == m[x2]@[y2] by {
        assert(m[x]@[y]@ == spec_entry(g, p, x, y));
        assert(m[x2]@[y2]@ == spec_entry(g, p, x2, y2));
        assert(spec_entry(g, p, x, y) == spec_entry(g, p, x2, y2));
        assert(m[x]@[y].num == m[x2]@[y2].num && m[x]@[y].den == m[x2]@[y2].den);
    }
    assert forall|i: int, j: int|
        0 <= i < ns.len() && 0 <= j < ns.len() implies rat_eq(
        #[trigger] spec_entry(g2, p, i, j),
        spec_entry(g, p, i, j),
    ) by {
        lemma_cells_first_match(m, ns, 0, 0, i, j);
        if m[i]@[j]@.num != 0 {
            let tr = abs_edge(ns[i], ns[j], m[i]@[j]);
            assert(spec_first_match(g2.edges@, ns[i], ns[j]) == Some(tr));
            assert(spec_tr_rate(p, tr) == m[i]@[j]@);
            assert(rat_eq(spec_entry(g2, p, i, j), spec_entry(g, p, i, j)));
        } else {
            assert(spec_first_match(g2.edges@, ns[i], ns[j]) is None);
            assert(spec_entry(g2, p, i, j) == rat_zero());
            assert(spec_entry(g, p, i, j).num == 0);
            let e1 = spec_entry(g, p, i, j);
            assert(0 * e1.den == 0) by (nonlinear_arith);
            assert(e1.num * 1 == e1.num) by (nonlinear_arith);
            assert(rat_eq(rat_zero(), e1));
        }
    }
}

} // verus!
