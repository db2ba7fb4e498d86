use vstd::prelude::*;

verus! {

/// The mathematical value of a rational number, kept as an exact pair of
/// integers.  All rate contracts in this crate are stated over `Ratio`.
pub ghost struct Ratio {
    pub num: int,
    pub den: int,
}

pub open spec fn rat_one() -> Ratio {
    Ratio { num: 1, den: 1 }
}

pub open spec fn rat_zero() -> Ratio {
    Ratio { num: 0, den: 1 }
}

pub open spec fn rmul(a: Ratio, b: Ratio) -> Ratio {
    Ratio { num: a.num * b.num, den: a.den * b.den }
}

pub open spec fn radd(a: Ratio, b: Ratio) -> Ratio {
    Ratio { num: a.num * b.den + b.num * a.den, den: a.den * b.den }
}

pub open spec fn rrecip(a: Ratio) -> Ratio {
    Ratio { num: a.den, den: a.num }
}

pub open spec fn rscale(a: Ratio, k: int) -> Ratio {
    Ratio { num: a.num * k, den: a.den }
}

/// Two rationals denote the same value exactly when cross-multiplication
/// agrees.
pub open spec fn rat_eq(a: Ratio, b: Ratio) -> bool {
    a.num * b.den == b.num * a.den
}

/// The product of two nonnegative bounded integers is nonnegative and
/// bounded by the product of the bounds.
pub proof fn lemma_mul_le(a: int, al: int, b: int, bl: int)
    requires
        0 <= a <= al,
        0 <= b <= bl,
    ensures
        0 <= a * b <= al * bl,
{
    vstd::arithmetic::mul::lemma_mul_nonnegative(a, b);
    vstd::arithmetic::mul::lemma_mul_upper_bound(a, al, b, bl);
}

/// The product of two strictly positive integers is strictly positive.
pub proof fn lemma_mul_pos(a: int, b: int)
    requires
        1 <= a,
        1 <= b,
    ensures
        1 <= a * b,
{
    vstd::arithmetic::mul::lemma_mul_strictly_positive(a, b);
}

/// An exact nonnegative rational number: `num / den` with `den >= 1`.
/// Rates of the Markov chain are carried as `Rat` values so that every
/// arithmetic step is exact and verifiable.
#[derive(Clone, Copy, PartialEq, Eq, Structural, Debug)]
pub struct Rat {
    pub num: u128,
    pub den: u128,
}

impl View for Rat {
    type V = Ratio;

    open spec fn view(&self) -> Ratio {
        Ratio { num: self.num as int, den: self.den as int }
    }
}

impl Rat {
    /// A denominator of zero denotes no rational at all.
    pub open spec fn wf(self) -> bool {
        self.den >= 1
    }

    pub fn new(num: u128, den: u128) -> (r: Rat)
        requires
            den >= 1,
        ensures
            r@ == (Ratio { num: num as int, den: den as int }),
            r.wf(),
    {
        Rat { num, den }
    }

    pub fn one() -> (r: Rat)
        ensures
            r@ == rat_one(),
            r.wf(),
    {
        Rat { num: 1, den: 1 }
    }

    pub fn zero() -> (r: Rat)
        ensures
            r@ == rat_zero(),
            r.wf(),
    {
        Rat { num: 0, den: 1 }
    }

    pub fn is_zero(&self) -> (r: bool)
        ensures
            r == (self@.num == 0),
    {
        self.num == 0
    }

    pub fn mul(self, o: Rat) -> (r: Rat)
        requires
            self.wf(),
            o.wf(),
            self.num * o.num <= u128::MAX,
            self.den * o.den <= u128::MAX,
        ensures
            r@ == rmul(self@, o@),
            r.wf(),
    {
        proof {
            assert(self.den * o.den >= 1) by (nonlinear_arith)
                requires
                    self.den >= 1,
                    o.den >= 1,
            ;
        }
        Rat { num: self.num * o.num, den: self.den * o.den }
    }

    pub fn add(self, o: Rat) -> (r: Rat)
        requires
            self.wf(),
            o.wf(),
            self.num * o.den + o.num * self.den <= u128::MAX,
            self.den * o.den <= u128::MAX,
        ensures
            r@ == radd(self@, o@),
            r.wf(),
    {
        proof {
            assert(self.den * o.den >= 1) by (nonlinear_arith)
                requires
                    self.den >= 1,
                    o.den >= 1,
            ;
        }
        Rat { num: self.num * o.den + o.num * self.den, den: self.den * o.den }
    }

    pub fn recip(self) -> (r: Rat)
        requires
            self.num >= 1,
        ensures
            r@ == rrecip(self@),
            r.wf(),
    {
        Rat { num: self.den, den: self.num }
    }

    pub fn scale(self, k: u64) -> (r: Rat)
        requires
            self.wf(),
            self.num * k <= u128::MAX,
        ensures
            r@ == rscale(self@, k as int),
            r.wf(),
    {
        Rat { num: self.num * (k as u128), den: self.den }
    }
}

} // verus!
