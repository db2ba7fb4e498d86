use vstd::prelude::*;

use crate::params::Params;
use crate::rat::{lemma_mul_le, lemma_mul_pos, radd, rat_one, rat_zero, rmul, rrecip, rscale, Rat,
    Ratio};
use crate::state::{spec_valid, State};

verus! {

/// The classified structural relationship between two states: one of the
/// seven concrete kinds of the network topology, `Unknown` for a pair with no
/// direct transition, or `Absolute` for an edge carrying an externally
/// supplied fixed rate.
#[derive(Clone, Copy, PartialEq, Eq, Structural, Debug)]
pub enum TransitionType {
    Absolute,
    Unknown,
    CpuToIo1,
    CpuToIo2,
    CpuToSelf,
    CpuToDelay,
    DelayToCpu,
    Io1ToCpu,
    Io2ToCpu,
}

/// Classification of the ordered pair head -> tail from the structural delta
/// (tail counts minus head counts, the phase tags excluded).  A zero delta
/// with an occupied CPU is the service-phase switch; otherwise a transition
/// must move exactly one client, from the single station whose count drops
/// to the single station whose count grows, along an edge of the topology
/// Delay <-> CPU <-> {I/O-1, I/O-2}.  Ambiguous deltas stay unclassified.
pub open spec fn spec_classify(h: State, t: State) -> TransitionType {
    let dd = t.n_delay - h.n_delay;
    let dc = t.n_cpu - h.n_cpu;
    let d1 = t.n_io1 - h.n_io1;
    let d2 = t.n_io2 - h.n_io2;
    if dd == 0 && dc == 0 && d1 == 0 && d2 == 0 {
        if h.n_cpu > 0 {
            TransitionType::CpuToSelf
        } else {
            TransitionType::Unknown
        }
    } else if dc == -1 && dd == 1 && d1 == 0 && d2 == 0 {
        TransitionType::CpuToDelay
    } else if dc == -1 && d1 == 1 && dd == 0 && d2 == 0 {
        TransitionType::CpuToIo1
    } else if dc == -1 && d2 == 1 && dd == 0 && d1 == 0 {
        TransitionType::CpuToIo2
    } else if dc == 1 && dd == -1 && d1 == 0 && d2 == 0 {
        TransitionType::DelayToCpu
    } else if dc == 1 && d1 == -1 && dd == 0 && d2 == 0 {
        TransitionType::Io1ToCpu
    } else if dc == 1 && d2 == -1 && dd == 0 && d1 == 0 {
        TransitionType::Io2ToCpu
    } else {
        TransitionType::Unknown
    }
}

/// Arrival phase selector: weight 1 when the CPU was already occupied before
/// the arrival, otherwise the selection weight of the phase the tail state
/// carries.
pub open spec fn spec_arrive_selector(p: Params, h: State, t: State) -> Ratio {
    if h.n_cpu > 0 {
        rat_one()
    } else if t.cpu_stage == 1 {
        p.alpha@
    } else {
        p.beta@
    }
}

/// Departure phase selector: weight 1 when the CPU becomes empty, otherwise
/// the selection weight of the phase the tail state carries.
pub open spec fn spec_leave_selector(p: Params, t: State) -> Ratio {
    if t.n_cpu == 0 {
        rat_one()
    } else if t.cpu_stage == 1 {
        p.alpha@
    } else {
        p.beta@
    }
}

/// Rate of a client leaving the CPU: the reciprocal of the service rate of
/// the head's current phase, weighted by the departure phase selector.
pub open spec fn spec_cpu_leave(p: Params, h: State, t: State) -> Ratio {
    rmul(rrecip(if h.cpu_stage == 1 {
        p.u1@
    } else {
        p.u2@
    }), spec_leave_selector(p, t))
}

/// The instantaneous transition rate of a classified, non-absolute
/// transition.
pub open spec fn spec_rate(p: Params, kind: TransitionType, h: State, t: State) -> Ratio {
    match kind {
        TransitionType::CpuToSelf => radd(
            rmul(spec_cpu_leave(p, h, t), p.qouts@),
            rmul(rrecip(p.timeslice@), spec_leave_selector(p, t)),
        ),
        TransitionType::CpuToIo1 => rmul(spec_cpu_leave(p, h, t), p.qio1@),
        TransitionType::CpuToIo2 => rmul(spec_cpu_leave(p, h, t), p.qio2@),
        TransitionType::CpuToDelay => rmul(spec_cpu_leave(p, h, t), p.qoutd@),
        TransitionType::DelayToCpu => rscale(
            rmul(rrecip(p.thinktime@), spec_arrive_selector(p, h, t)),
            h.n_delay as int,
        ),
        TransitionType::Io1ToCpu => rmul(rrecip(p.sio1@), spec_arrive_selector(p, h, t)),
        TransitionType::Io2ToCpu => rmul(rrecip(p.sio2@), spec_arrive_selector(p, h, t)),
        TransitionType::Absolute => rat_zero(),
        TransitionType::Unknown => rat_zero(),
    }
}

/// A directed, classified edge between two states, with the lazily computed
/// rate kept as an explicit optional value (no sentinel: a stored rate of
/// zero is a computed rate of zero).
#[derive(Clone, Copy, Debug)]
pub struct Transition {
    pub t_type: TransitionType,
    pub head: State,
    pub tail: State,
    pub rate: Option<Rat>,
}

pub(crate) fn classify_states(h: &State, t: &State) -> (r: TransitionType)
    ensures
        r == spec_classify(*h, *t),
{
    let dd: i128 = t.n_delay as i128 - h.n_delay as i128;
    let dc: i128 = t.n_cpu as i128 - h.n_cpu as i128;
    let d1: i128 = t.n_io1 as i128 - h.n_io1 as i128;
    let d2: i128 = t.n_io2 as i128 - h.n_io2 as i128;
    if dd == 0 && dc == 0 && d1 == 0 && d2 == 0 {
        if h.n_cpu > 0 {
            TransitionType::CpuToSelf
        } else {
            TransitionType::Unknown
        }
    } else if dc == -1 && dd == 1 && d1 == 0 && d2 == 0 {
        TransitionType::CpuToDelay
    } else if dc == -1 && d1 == 1 && dd == 0 && d2 == 0 {
        TransitionType::CpuToIo1
    } else if dc == -1 && d2 == 1 && dd == 0 && d1 == 0 {
        TransitionType::CpuToIo2
    } else if dc == 1 && dd == -1 && d1 == 0 && d2 == 0 {
        TransitionType::DelayToCpu
    } else if dc == 1 && d1 == -1 && dd == 0 && d2 == 0 {
        TransitionType::Io1ToCpu
    } else if dc == 1 && d2 == -1 && dd == 0 && d1 == 0 {
        TransitionType::Io2ToCpu
    } else {
        TransitionType::Unknown
    }
}

/// The rate an edge contributes to the rate matrix: the stored value for an
/// absolute edge, the rate formula of its kind otherwise.
pub open spec fn spec_tr_rate(p: Params, tr: Transition) -> Ratio {
    if tr.t_type == TransitionType::Absolute {
        match tr.rate {
            Some(v) => v@,
            None => rat_zero(),
        }
    } else {
        spec_rate(p, tr.t_type, tr.head, tr.tail)
    }
}

impl Transition {
    /// The edge carries a concrete kind that agrees with the structural
    /// classification of its endpoints, and both endpoints are valid states
    /// of the configured population.
    pub open spec fn classified_for(self, p: Params) -> bool {
        &&& self.t_type == spec_classify(self.head, self.tail)
        &&& self.t_type != TransitionType::Unknown
        &&& spec_valid(self.head, p.numclients as int)
        &&& spec_valid(self.tail, p.numclients as int)
    }

    /// A rate may be requested: either an absolute edge with its stored
    /// value, or a correctly classified edge whose cached rate, if any,
    /// agrees with the rate formula.
    pub open spec fn rate_ready(self, p: Params) -> bool {
        if self.t_type == TransitionType::Absolute {
            match self.rate {
                Some(v) => v.wf(),
                None => false,
            }
        } else {
            &&& self.classified_for(p)
            &&& match self.rate {
                Some(v) => v@ == spec_rate(p, self.t_type, self.head, self.tail) && v.wf(),
                None => true,
            }
        }
    }

    /// A fresh, unclassified edge.
    pub fn new(head: State, tail: State) -> (r: Transition)
        ensures
            r.head == head,
            r.tail == tail,
            r.t_type == TransitionType::Unknown,
            r.rate.is_none(),
    {
        Transition { head, t_type: TransitionType::Unknown, tail, rate: None }
    }

    /// An edge with an externally supplied fixed rate, used when a graph is
    /// rebuilt from a rate matrix.
    pub fn from_value(head: State, tail: State, value: Rat) -> (r: Transition)
        requires
            value.wf(),
        ensures
            r.head == head,
            r.tail == tail,
            r.t_type == TransitionType::Absolute,
            r.rate == Some(value),
    {
        Transition { t_type: TransitionType::Absolute, head, tail, rate: Some(value) }
    }

    pub fn head(&self) -> (r: &State)
        ensures
            *r == self.head,
    {
        &self.head
    }

    pub fn tail(&self) -> (r: &State)
        ensures
            *r == self.tail,
    {
        &self.tail
    }

    pub fn t_type(&self) -> (r: &TransitionType)
        ensures
            *r == self.t_type,
    {
        &self.t_type
    }

    /// Classifies the edge from the structural delta of its endpoints.  An
    /// edge whose rate is already stored (an absolute edge) is left alone.
    pub fn detect(&mut self)
        ensures
            final (self).head == old(self).head,
            final (self).tail == old(self).tail,
            final (self).rate == old(self).rate,
            final (self).t_type == if old(self).rate is Some {
                old(self).t_type
            } else {
                spec_classify(old(self).head, old(self).tail)
            },
    {
        if self.rate.is_some() {
            return ;
        }
        self.t_type = classify_states(&self.head, &self.tail);
    }

    /// Classifies on demand and reports whether a concrete kind was found.
    pub fn is_valid(&mut self) -> (r: bool)
        ensures
            final (self).head == old(self).head,
            final (self).tail == old(self).tail,
            final (self).rate == old(self).rate,
            final (self).t_type == if old(self).t_type == TransitionType::Unknown && old(self).rate
                is None {
                spec_classify(old(self).head, old(self).tail)
            } else {
                old(self).t_type
            },
            r == (final (self).t_type != TransitionType::Unknown),
    {
        if self.t_type == TransitionType::Unknown {
            self.detect();
        }
        self.t_type != TransitionType::Unknown
    }

    fn cpu_onarrive_stage_selector(&self, p: &Params) -> (r: Rat)
        requires
            p.wf(),
            self.head.n_cpu <= self.tail.n_cpu,
        ensures
            r@ == spec_arrive_selector(*p, self.head, self.tail),
            r.wf(),
            r.num <= 65536,
            r.den <= 65536,
    {
        if self.head.n_cpu > 0 {
            Rat::one()
        } else if self.tail.cpu_stage == 1 {
            p.alpha
        } else {
            p.beta
        }
    }

    fn cpu_onleave_stage_selector(&self, p: &Params) -> (r: Rat)
        requires
            p.wf(),
            self.head.n_cpu >= self.tail.n_cpu,
        ensures
            r@ == spec_leave_selector(*p, self.tail),
            r.wf(),
            r.num <= 65536,
            r.den <= 65536,
    {
        if self.tail.n_cpu == 0 {
            Rat::one()
        } else if self.tail.cpu_stage == 1 {
            p.alpha
        } else {
            p.beta
        }
    }

    fn cpu_leave(&self, p: &Params) -> (r: Rat)
        requires
            p.wf(),
            self.head.n_cpu >= self.tail.n_cpu,
        ensures
            r@ == spec_cpu_leave(*p, self.head, self.tail),
            r.wf(),
            r.num <= 0x1_0000_0000,
            r.den <= 0x1_0000_0000,
    {
        let service = if self.head.cpu_stage == 1 {
            p.u1
        } else {
            p.u2
        };
        let sel = self.cpu_onleave_stage_selector(p);
        proof {
            lemma_mul_le(service.den as int, 65536, sel.num as int, 65536);
            lemma_mul_le(service.num as int, 65536, sel.den as int, 65536);
        }
        service.recip().mul(sel)
    }

    fn cpu_to_self(&self, p: &Params) -> (r: Rat)
        requires
            p.wf(),
            self.classified_for(*p),
            self.t_type == TransitionType::CpuToSelf,
        ensures
            r@ == spec_rate(*p, TransitionType::CpuToSelf, self.head, self.tail),
            r.wf(),
    {
        let lv = self.cpu_leave(p);
        proof {
            lemma_mul_le(lv.num as int, 0x1_0000_0000, p.qouts.num as int, 65536);
            lemma_mul_le(lv.den as int, 0x1_0000_0000, p.qouts.den as int, 65536);
        }
        let a = lv.mul(p.qouts);
        let sel = self.cpu_onleave_stage_selector(p);
        proof {
            lemma_mul_le(p.timeslice.den as int, 65536, sel.num as int, 65536);
            lemma_mul_le(p.timeslice.num as int, 65536, sel.den as int, 65536);
        }
        let b = p.timeslice.recip().mul(sel);
        proof {
            lemma_mul_le(a.num as int, 0x1_0000_0000_0000, b.den as int, 0x1_0000_0000);
            lemma_mul_le(b.num as int, 0x1_0000_0000, a.den as int, 0x1_0000_0000_0000);
            lemma_mul_le(a.den as int, 0x1_0000_0000_0000, b.den as int, 0x1_0000_0000);
        }
        a.add(b)
    }

    fn cpu_to_io(&self, p: &Params) -> (r: Rat)
        requires
            p.wf(),
            self.classified_for(*p),
            self.t_type == TransitionType::CpuToIo1 || self.t_type == TransitionType::CpuToIo2,
        ensures
            r@ == spec_rate(*p, self.t_type, self.head, self.tail),
            r.wf(),
    {
        let lv = self.cpu_leave(p);
        let q = if self.t_type == TransitionType::CpuToIo1 {
            p.qio1
        } else {
            p.qio2
        };
        proof {
            lemma_mul_le(lv.num as int, 0x1_0000_0000, q.num as int, 65536);
            lemma_mul_le(lv.den as int, 0x1_0000_0000, q.den as int, 65536);
        }
        lv.mul(q)
    }

    fn cpu_to_delay(&self, p: &Params) -> (r: Rat)
        requires
            p.wf(),
            self.classified_for(*p),
            self.t_type == TransitionType::CpuToDelay,
        ensures
            r@ == spec_rate(*p, TransitionType::CpuToDelay, self.head, self.tail),
            r.wf(),
    {
        let lv = self.cpu_leave(p);
        proof {
            lemma_mul_le(lv.num as int, 0x1_0000_0000, p.qoutd.num as int, 65536);
            lemma_mul_le(lv.den as int, 0x1_0000_0000, p.qoutd.den as int, 65536);
        }
        lv.mul(p.qoutd)
    }

    fn io_to_cpu(&self, p: &Params) -> (r: Rat)
        requires
            p.wf(),
            self.classified_for(*p),
            self.t_type == TransitionType::Io1ToCpu || self.t_type == TransitionType::Io2ToCpu,
        ensures
            r@ == spec_rate(*p, self.t_type, self.head, self.tail),
            r.wf(),
    {
        let service = if self.t_type == TransitionType::Io1ToCpu {
            p.sio1
        } else {
            p.sio2
        };
        let sel = self.cpu_onarrive_stage_selector(p);
        proof {
            lemma_mul_le(service.den as int, 65536, sel.num as int, 65536);
            lemma_mul_le(service.num as int, 65536, sel.den as int, 65536);
        }
        service.recip().mul(sel)
    }

    fn delay_to_cpu(&self, p: &Params) -> (r: Rat)
        requires
            p.wf(),
            self.classified_for(*p),
            self.t_type == TransitionType::DelayToCpu,
        ensures
            r@ == spec_rate(*p, TransitionType::DelayToCpu, self.head, self.tail),
            r.wf(),
    {
        let sel = self.cpu_onarrive_stage_selector(p);
        proof {
            lemma_mul_le(p.thinktime.den as int, 65536, sel.num as int, 65536);
            lemma_mul_le(p.thinktime.num as int, 65536, sel.den as int, 65536);
        }
        let base = p.thinktime.recip().mul(sel);
        proof {
            lemma_mul_le(base.num as int, 0x1_0000_0000, self.head.n_delay as int, 65536);
        }
        base.scale(self.head.n_delay)
    }

    fn compute_rate(&self, p: &Params) -> (r: Rat)
        requires
            p.wf(),
            self.classified_for(*p),
        ensures
            r@ == spec_rate(*p, self.t_type, self.head, self.tail),
            r.wf(),
    {
        match self.t_type {
            TransitionType::CpuToIo1 => self.cpu_to_io(p),
            TransitionType::CpuToIo2 => self.cpu_to_io(p),
            TransitionType::CpuToSelf => self.cpu_to_self(p),
            TransitionType::CpuToDelay => self.cpu_to_delay(p),
            TransitionType::DelayToCpu => self.delay_to_cpu(p),
            TransitionType::Io1ToCpu => self.io_to_cpu(p),
            TransitionType::Io2ToCpu => self.io_to_cpu(p),
            TransitionType::Absolute => vstd::pervasive::unreached(),
            TransitionType::Unknown => vstd::pervasive::unreached(),
        }
    }

    /// The rate of this edge, computed from its classified kind on first
    /// read and cached, or the stored value of an absolute edge.
    pub fn probability(&mut self, p: &Params) -> (r: Rat)
        requires
            p.wf(),
            old(self).rate_ready(*p),
        ensures
            r@ == spec_tr_rate(*p, *old(self)),
            r.wf(),
            final (self).head == old(self).head,
            final (self).tail == old(self).tail,
            final (self).t_type == old(self).t_type,
            final (self).rate == Some(r),
            final (self).rate_ready(*p),
    {
        match self.rate {
            Some(v) => v,
            None => {
                let r = self.compute_rate(p);
                self.rate = Some(r);
                r
            },
        }
    }
}

/// Reverse-pair consistency: whenever an ordered pair of valid states
/// classifies as a departure from the CPU, the opposite order classifies as
/// the corresponding arrival into the CPU, and conversely.
pub proof fn lemma_reverse_pair(a: State, b: State, population: int)
    requires
        spec_valid(a, population),
        spec_valid(b, population),
    ensures
        spec_classify(a, b) == TransitionType::CpuToIo1 ==> spec_classify(b, a)
            == TransitionType::Io1ToCpu,
        spec_classify(a, b) == TransitionType::CpuToIo2 ==> spec_classify(b, a)
            == TransitionType::Io2ToCpu,
        spec_classify(a, b) == TransitionType::CpuToDelay ==> spec_classify(b, a)
            == TransitionType::DelayToCpu,
        spec_classify(a, b) == TransitionType::Io1ToCpu ==> spec_classify(b, a)
            == TransitionType::CpuToIo1,
        spec_classify(a, b) == TransitionType::Io2ToCpu ==> spec_classify(b, a)
            == TransitionType::CpuToIo2,
        spec_classify(a, b) == TransitionType::DelayToCpu ==> spec_classify(b, a)
            == TransitionType::CpuToDelay,
{
}

/// A pair classifies as the CPU service-phase switch exactly when head and
/// tail have equal counts at every station and both have an occupied CPU.
pub proof fn lemma_cpu_to_self_characterization(a: State, b: State)
    ensures
        spec_classify(a, b) == TransitionType::CpuToSelf <==> (a.n_delay == b.n_delay && a.n_cpu
            == b.n_cpu && a.n_io1 == b.n_io1 && a.n_io2 == b.n_io2 && a.n_cpu > 0 && b.n_cpu > 0),
{
}

/// With strictly positive configuration parameters, the rate of every
/// classified, non-absolute transition is strictly positive.
pub proof fn lemma_rate_positive(p: Params, h: State, t: State)
    requires
        p.wf(),
        spec_classify(h, t) != TransitionType::Unknown,
    ensures
        spec_rate(p, spec_classify(h, t), h, t).num >= 1,
        spec_rate(p, spec_classify(h, t), h, t).den >= 1,
{
    let kind = spec_classify(h, t);
    let arr = spec_arrive_selector(p, h, t);
    let lv = spec_leave_selector(p, t);
    let cl = spec_cpu_leave(p, h, t);
    assert(arr.num >= 1 && arr.den >= 1);
    assert(lv.num >= 1 && lv.den >= 1);
    lemma_mul_pos(if h.cpu_stage == 1 {
        p.u1@.den
    } else {
        p.u2@.den
    }, lv.num);
    lemma_mul_pos(if h.cpu_stage == 1 {
        p.u1@.num
    } else {
        p.u2@.num
    }, lv.den);
    assert(cl.num >= 1 && cl.den >= 1);
    match kind {
        TransitionType::CpuToSelf => {
            lemma_mul_pos(cl.num, p.qouts@.num);
            lemma_mul_pos(cl.den, p.qouts@.den);
            lemma_mul_pos(p.timeslice@.den, lv.num);
            lemma_mul_pos(p.timeslice@.num, lv.den);
            let x = rmul(cl, p.qouts@);
            let y = rmul(rrecip(p.timeslice@), lv);
            lemma_mul_pos(x.num, y.den);
            lemma_mul_pos(y.num, x.den);
            lemma_mul_pos(x.den, y.den);
        },
        TransitionType::CpuToIo1 => {
            lemma_mul_pos(cl.num, p.qio1@.num);
            lemma_mul_pos(cl.den, p.qio1@.den);
        },
        TransitionType::CpuToIo2 => {
            lemma_mul_pos(cl.num, p.qio2@.num);
            lemma_mul_pos(cl.den, p.qio2@.den);
        },
        TransitionType::CpuToDelay => {
            lemma_mul_pos(cl.num, p.qoutd@.num);
            lemma_mul_pos(cl.den, p.qoutd@.den);
        },
        TransitionType::DelayToCpu => {
            lemma_mul_pos(p.thinktime@.den, arr.num);
            lemma_mul_pos(p.thinktime@.num, arr.den);
            let base = rmul(rrecip(p.thinktime@), arr);
            lemma_mul_pos(base.num, h.n_delay as int);
        },
        TransitionType::Io1ToCpu => {
            lemma_mul_pos(p.sio1@.den, arr.num);
            lemma_mul_pos(p.sio1@.num, arr.den);
        },
        TransitionType::Io2ToCpu => {
            lemma_mul_pos(p.sio2@.den, arr.num);
            lemma_mul_pos(p.sio2@.num, arr.den);
        },
        TransitionType::Absolute => {
        },
        TransitionType::Unknown => {
        },
    }
}

/// With a well-formed configuration and valid endpoint states, the rate of a
/// classified transition stays far below the machine word, so it can always
/// be rendered with four decimal places.
pub proof fn lemma_rate_bounded(p: Params, h: State, t: State)
    requires
        p.wf(),
        spec_classify(h, t) != TransitionType::Unknown,
        spec_valid(h, p.numclients as int),
    ensures
        spec_rate(p, spec_classify(h, t), h, t).num <= 0x2_0000_0000_0000_0000_0000,
        1 <= spec_rate(p, spec_classify(h, t), h, t).den <= 0x1_0000_0000_0000_0000_0000,
        crate::text::spec_fixed4_ok(spec_rate(p, spec_classify(h, t), h, t)),
{
    let kind = spec_classify(h, t);
    let arr = spec_arrive_selector(p, h, t);
    let lv = spec_leave_selector(p, t);
    let cl = spec_cpu_leave(p, h, t);
    lemma_rate_positive(p, h, t);
    assert(0 <= arr.num <= 65536 && 0 <= arr.den <= 65536);
    assert(0 <= lv.num <= 65536 && 0 <= lv.den <= 65536);
    lemma_mul_le(if h.cpu_stage == 1 {
        p.u1@.den
    } else {
        p.u2@.den
    }, 65536, lv.num, 65536);
    lemma_mul_le(if h.cpu_stage == 1 {
        p.u1@.num
    } else {
        p.u2@.num
    }, 65536, lv.den, 65536);
    assert(0 <= cl.num <= 0x1_0000_0000 && 0 <= cl.den <= 0x1_0000_0000);
    match kind {
        TransitionType::CpuToSelf => {
            lemma_mul_le(cl.num, 0x1_0000_0000, p.qouts@.num, 65536);
            lemma_mul_le(cl.den, 0x1_0000_0000, p.qouts@.den, 65536);
            lemma_mul_le(p.timeslice@.den, 65536, lv.num, 65536);
            lemma_mul_le(p.timeslice@.num, 65536, lv.den, 65536);
            let x = rmul(cl, p.qouts@);
            let y = rmul(rrecip(p.timeslice@), lv);
            lemma_mul_le(x.num, 0x1_0000_0000_0000, y.den, 0x1_0000_0000);
            lemma_mul_le(y.num, 0x1_0000_0000, x.den, 0x1_0000_0000_0000);
            lemma_mul_le(x.den, 0x1_0000_0000_0000, y.den, 0x1_0000_0000);
        },
        TransitionType::CpuToIo1 => {
            lemma_mul_le(cl.num, 0x1_0000_0000, p.qio1@.num, 65536);
            lemma_mul_le(cl.den, 0x1_0000_0000, p.qio1@.den, 65536);
        },
        TransitionType::CpuToIo2 => {
            lemma_mul_le(cl.num, 0x1_0000_0000, p.qio2@.num, 65536);
            lemma_mul_le(cl.den, 0x1_0000_0000, p.qio2@.den, 65536);
        },
        TransitionType::CpuToDelay => {
            lemma_mul_le(cl.num, 0x1_0000_0000, p.qoutd@.num, 65536);
            lemma_mul_le(cl.den, 0x1_0000_0000, p.qoutd@.den, 65536);
        },
        TransitionType::DelayToCpu => {
            lemma_mul_le(p.thinktime@.den, 65536, arr.num, 65536);
            lemma_mul_le(p.thinktime@.num, 65536, arr.den, 65536);
            let base = rmul(rrecip(p.thinktime@), arr);
            lemma_mul_le(base.num, 0x1_0000_0000, h.n_delay as int, 65536);
        },
        TransitionType::Io1ToCpu => {
            lemma_mul_le(p.sio1@.den, 65536, arr.num, 65536);
            lemma_mul_le(p.sio1@.num, 65536, arr.den, 65536);
        },
        TransitionType::Io2ToCpu => {
            lemma_mul_le(p.sio2@.den, 65536, arr.num, 65536);
            lemma_mul_le(p.sio2@.num, 65536, arr.den, 65536);
        },
        TransitionType::Absolute => {
        },
        TransitionType::Unknown => {
        },
    }
}

} // verus!
