use markov::generator::NodeGenerator;
use markov::params::Params;
use markov::rat::Rat;
use markov::state::State;
use markov::transition::{Transition, TransitionType};

fn test_params() -> Params {
    Params {
        numclients: 3,
        alpha: Rat::new(1, 2),
        beta: Rat::new(1, 1),
        u1: Rat::new(2, 1),
        u2: Rat::new(4, 1),
        qouts: Rat::new(1, 10),
        qio1: Rat::new(3, 10),
        qio2: Rat::new(3, 10),
        qoutd: Rat::new(3, 10),
        sio1: Rat::new(5, 4),
        sio2: Rat::new(7, 4),
        thinktime: Rat::new(5, 1),
        timeslice: Rat::new(1, 10),
    }
}

fn rat_equal(a: Rat, b: Rat) -> bool {
    a.num * b.den == b.num * a.den
}

#[test]
fn test_transition_instance() {
    let mut tr = Transition::new(State::new(3, 0, 0, 0, 0), State::new(2, 1, 0, 0, 1));
    assert!(tr.is_valid());
    assert!(*tr.t_type() == TransitionType::DelayToCpu);
}

fn verify_state_transition(s1: State, s2: State, expected: Rat) {
    let params = test_params();
    let mut tr = Transition::new(s1, s2);
    assert!(tr.is_valid(), "invalid transition");
    let got = tr.probability(&params);
    assert!(
        rat_equal(got, expected),
        "mismatch expected:{}/{} value:{}/{}",
        expected.num,
        expected.den,
        got.num,
        got.den
    );
}

#[test]
fn test_transition_probability() {
    let params = test_params();
    verify_state_transition(
        State::new(3, 0, 0, 0, 0),
        State::new(2, 1, 0, 0, 1),
        params.thinktime.recip().scale(3).mul(params.alpha),
    );

    verify_state_transition(
        State::new(1, 2, 0, 0, 1),
        State::new(1, 2, 0, 0, 2),
        params
            .u1
            .mul(params.beta)
            .recip()
            .mul(params.qouts)
            .add(params.timeslice.mul(params.beta).recip()),
    );

    verify_state_transition(
        State::new(2, 1, 0, 0, 1),
        State::new(2, 1, 0, 0, 2),
        params
            .u1
            .mul(params.beta)
            .recip()
            .mul(params.qouts)
            .add(params.timeslice.mul(params.beta).recip()),
    );
}

#[test]
fn test_delay_to_cpu_example_rate() {
    // from three thinking clients, one enters the empty CPU in phase 1:
    // rate is (1 / think time) * phase-1 weight * 3
    let params = test_params();
    let mut tr = Transition::new(State::new(3, 0, 0, 0, 0), State::new(2, 1, 0, 0, 1));
    assert!(tr.is_valid());
    assert_eq!(*tr.t_type(), TransitionType::DelayToCpu);
    let got = tr.probability(&params);
    // 1/5 * 1/2 * 3 = 3/10
    assert!(rat_equal(got, Rat::new(3, 10)));
}

#[test]
fn test_cpu_to_self_needs_equal_counts_and_busy_cpu() {
    // equal counts, CPU occupied: the phase switch
    let mut tr = Transition::new(State::new(1, 2, 0, 0, 1), State::new(1, 2, 0, 0, 2));
    assert!(tr.is_valid());
    assert_eq!(*tr.t_type(), TransitionType::CpuToSelf);
    // equal counts but the CPU is empty: no transition
    let mut idle = Transition::new(State::new(3, 0, 0, 0, 0), State::new(3, 0, 0, 0, 0));
    assert!(!idle.is_valid());
    // unequal counts never classify as the phase switch
    let mut moved = Transition::new(State::new(2, 1, 0, 0, 1), State::new(1, 2, 0, 0, 1));
    moved.detect();
    assert_ne!(*moved.t_type(), TransitionType::CpuToSelf);
}

#[test]
fn test_reverse_pair_kinds() {
    let pairs = [
        (
            State::new(0, 2, 1, 0, 1),
            State::new(0, 1, 2, 0, 1),
            TransitionType::CpuToIo1,
            TransitionType::Io1ToCpu,
        ),
        (
            State::new(0, 2, 0, 1, 1),
            State::new(0, 1, 0, 2, 1),
            TransitionType::CpuToIo2,
            TransitionType::Io2ToCpu,
        ),
        (
            State::new(1, 2, 0, 0, 1),
            State::new(2, 1, 0, 0, 1),
            TransitionType::CpuToDelay,
            TransitionType::DelayToCpu,
        ),
    ];
    for (a, b, forward, reverse) in pairs {
        let mut fwd = Transition::new(a, b);
        assert!(fwd.is_valid());
        assert_eq!(*fwd.t_type(), forward);
        let mut rev = Transition::new(b, a);
        assert!(rev.is_valid());
        assert_eq!(*rev.t_type(), reverse);
    }
}

#[test]
fn test_unrelated_pairs_stay_unknown() {
    // delay to an I/O device is not an edge of the topology
    let mut tr = Transition::new(State::new(2, 0, 1, 0, 1), State::new(1, 0, 2, 0, 1));
    assert!(!tr.is_valid());
    // two clients moving at once cannot classify
    let mut two = Transition::new(State::new(2, 1, 0, 0, 1), State::new(0, 2, 1, 0, 1));
    assert!(!two.is_valid());
    // a move of one client between the I/O devices cannot classify
    let mut io = Transition::new(State::new(1, 0, 1, 1, 1), State::new(1, 0, 2, 0, 1));
    assert!(!io.is_valid());
}

#[test]
fn test_all_classified_rates_positive() {
    let params = test_params();
    let mut generator = NodeGenerator::new(3);
    generator.generate();
    let states = &generator.generated;
    let mut classified = 0usize;
    for a in states.iter() {
        for b in states.iter() {
            let mut tr = Transition::new(*a, *b);
            if tr.is_valid() {
                classified += 1;
                let rate = tr.probability(&params);
                assert!(rate.num > 0, "zero rate for {:?} -> {:?}", a, b);
                assert!(rate.den > 0);
            }
        }
    }
    assert!(classified > 0);
}

#[test]
fn test_absolute_transition_keeps_value() {
    let params = test_params();
    let mut tr = Transition::from_value(
        State::new(3, 0, 0, 0, 0),
        State::new(2, 1, 0, 0, 1),
        Rat::new(7, 3),
    );
    // detect leaves an absolute edge alone
    tr.detect();
    assert_eq!(*tr.t_type(), TransitionType::Absolute);
    let got = tr.probability(&params);
    assert_eq!(got.num, 7);
    assert_eq!(got.den, 3);
}
