use markov::chain::ChainGenerator;
use markov::generator::NodeGenerator;
use markov::params::Params;
use markov::rat::Rat;
use markov::state::State;

fn test_params() -> Params {
    Params {
        numclients: 3,
        alpha: Rat::new(1, 2),
        beta: Rat::new(1, 1),
        u1: Rat::new(2, 1),
        u2: Rat::new(4, 1),
        qouts: Rat::new(1, 10),
        qio1: Rat::new(3, 10),
        qio2: Rat::new(3, 10),
        qoutd: Rat::new(3, 10),
        sio1: Rat::new(5, 4),
        sio2: Rat::new(7, 4),
        thinktime: Rat::new(5, 1),
        timeslice: Rat::new(1, 10),
    }
}

#[test]
fn test_node_generator() {
    let mut generator = NodeGenerator::new(3);
    generator.generate();
    assert!(generator.generated.len() == 30);
}

#[test]
fn test_graph_generator() {
    let mut generator = ChainGenerator::new(3);
    generator.generate(State::new(3, 0, 0, 0, 0));
    assert!(generator.ordered().len() == 30);
    let params = test_params();
    let mat = generator.graph().adj_matrix(&params);
    assert!(mat[0].len() == 30);
    assert!(mat[0].iter().any(|x| x.num > 0));
}

#[test]
fn test_enumeration_small_populations() {
    // population 1: four single-client placements, one of them at the CPU,
    // which doubles for the second phase
    let mut g1 = NodeGenerator::new(1);
    g1.generate();
    assert_eq!(g1.generated.len(), 5);
    // population 2: ten count combinations, four with an occupied CPU
    let mut g2 = NodeGenerator::new(2);
    g2.generate();
    assert_eq!(g2.generated.len(), 14);
}

#[test]
fn test_enumeration_order_and_index_of() {
    let mut generator = NodeGenerator::new(3);
    generator.generate();
    // odometer order: all clients at the last station comes first
    let first = State::new(0, 0, 0, 3, 1);
    assert_eq!(generator.generated[0], first);
    assert_eq!(generator.index_of(&first), 0);
    let last = State::new(3, 0, 0, 0, 1);
    assert_eq!(generator.index_of(&last), generator.generated.len() - 1);
    // both phase variants of an occupied-CPU combination are adjacent
    let p1 = State::new(0, 3, 0, 0, 1);
    let p2 = State::new(0, 3, 0, 0, 2);
    assert_eq!(generator.index_of(&p2), generator.index_of(&p1) + 1);
}

#[test]
fn test_add_state_filters_invalid() {
    let mut generator = NodeGenerator::new(3);
    // counts sum to 2, not 3: rejected
    generator.add_state(&State::new(1, 1, 0, 0, 1));
    assert_eq!(generator.generated.len(), 0);
    // valid state: kept
    generator.add_state(&State::new(1, 1, 1, 0, 2));
    assert_eq!(generator.generated.len(), 1);
}

#[test]
fn test_no_duplicate_states() {
    let mut generator = NodeGenerator::new(3);
    generator.generate();
    for i in 0..generator.generated.len() {
        for j in 0..generator.generated.len() {
            if i != j {
                assert_ne!(generator.generated[i], generator.generated[j]);
            }
        }
    }
}

#[test]
fn test_chain_visits_are_reachable() {
    let mut generator = ChainGenerator::new(2);
    generator.generate(State::new(2, 0, 0, 0, 0));
    let ordered = generator.ordered();
    assert_eq!(ordered[0], State::new(2, 0, 0, 0, 1));
    assert_eq!(ordered.len(), 14);
    // breadth-first discovery order: the seed's successors come next, in
    // enumeration order (one client moves from the delay station to the CPU)
    assert_eq!(ordered[1], State::new(1, 1, 0, 0, 1));
    assert_eq!(ordered[2], State::new(1, 1, 0, 0, 2));
    // the graph's node order is the visited order
    let g = generator.graph();
    assert_eq!(g.nodes().len(), ordered.len());
    for i in 0..ordered.len() {
        assert_eq!(g.nodes()[i], ordered[i]);
    }
}

#[test]
fn test_round_trip_adj_matrix() {
    let params = test_params();
    let mut generator = ChainGenerator::new(3);
    generator.generate(State::new(3, 0, 0, 0, 0));
    let g = generator.graph();
    let m = g.adj_matrix(&params);
    let g2 = markov::graph::Graph::from_adj_matrix(&m, g.nodes());
    let m2 = g2.adj_matrix(&params);
    assert_eq!(m.len(), m2.len());
    for i in 0..m.len() {
        for j in 0..m.len() {
            let a = &m[i][j];
            let b = &m2[i][j];
            // equal as rational values
            assert_eq!(a.num * b.den, b.num * a.den, "cell ({},{})", i, j);
        }
    }
}

#[test]
fn test_state_label() {
    assert_eq!(State::new(3, 0, 0, 0, 0).to_graph_element(), "3-0-0-0-1");
    assert_eq!(State::new(0, 2, 1, 0, 2).to_graph_element(), "0-2-1-0-2");
    assert_eq!(State::new(12, 0, 0, 0, 0).to_graph_element(), "12-0-0-0-1");
}

#[test]
fn test_text_exports() {
    let params = test_params();
    let mut g = markov::graph::Graph::new();
    g.add_edge(markov::transition::Transition::from_value(
        State::new(3, 0, 0, 0, 0),
        State::new(2, 1, 0, 0, 1),
        Rat::new(1, 2),
    ));
    let flow = g.to_flow_chart(&params);
    assert_eq!(flow, "source,target,value\n3-0-0-0-1,2-1-0-0-1,1/2");
    let dot = g.to_dot(&params);
    assert_eq!(
        dot,
        "digraph {\nrankdir=TB\noverlap=scale\n\"3-0-0-0-1\"->\"2-1-0-0-1\"[label=\"0.5000\"]\n}"
    );
}

#[test]
fn test_rate_rendering_edge_cases() {
    let params = test_params();
    let head = State::new(3, 0, 0, 0, 0);
    let tail = State::new(2, 1, 0, 0, 1);
    // a true zero rate renders as a zero rational and as 0.0000
    let mut zero = markov::graph::Graph::new();
    zero.add_edge(markov::transition::Transition::from_value(head, tail, Rat::new(0, 1)));
    assert_eq!(zero.to_flow_chart(&params), "source,target,value\n3-0-0-0-1,2-1-0-0-1,0/1");
    assert!(zero.to_dot(&params).contains("[label=\"0.0000\"]"));
    // thirds round to the nearest fourth decimal
    let mut third = markov::graph::Graph::new();
    third.add_edge(markov::transition::Transition::from_value(head, tail, Rat::new(1, 3)));
    third.add_edge(markov::transition::Transition::from_value(tail, head, Rat::new(2, 3)));
    let dot = third.to_dot(&params);
    assert!(dot.contains("[label=\"0.3333\"]"));
    assert!(dot.contains("[label=\"0.6667\"]"));
}
