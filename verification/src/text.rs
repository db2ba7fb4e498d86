use vstd::prelude::*;

use crate::rat::{Rat, Ratio};

verus! {

/// The decimal digit character for a value below ten.
pub open spec fn spec_digit(d: int) -> char {
    if d == 0 {
        '0'
    } else if d == 1 {
        '1'
    } else if d == 2 {
        '2'
    } else if d == 3 {
        '3'
    } else if d == 4 {
        '4'
    } else if d == 5 {
        '5'
    } else if d == 6 {
        '6'
    } else if d == 7 {
        '7'
    } else if d == 8 {
        '8'
    } else {
        '9'
    }
}

/// The decimal rendering of a nonnegative integer, most significant digit
/// first, with no leading zeroes.
pub open spec fn spec_dec(n: int) -> Seq<char>
    decreases n,
{
    if n < 10 {
        seq![spec_digit(n)]
    } else {
        spec_dec(n / 10).push(spec_digit(n % 10))
    }
}

/// The rendering of an exact rational as `numerator/denominator`.
pub open spec fn spec_slash(r: Ratio) -> Seq<char> {
    spec_dec(r.num) + seq!['/'] + spec_dec(r.den)
}

/// Whether a rational can be rendered with four decimal places without the
/// scaling step leaving the machine word.
pub open spec fn spec_fixed4_ok(r: Ratio) -> bool {
    &&& 0 <= r.num
    &&& 1 <= r.den
    &&& r.num * 10000 + r.den / 2 <= u128::MAX
}

/// The value of a rational scaled by ten thousand and rounded to the nearest
/// integer, half away from zero.
pub open spec fn spec_scaled4(r: Ratio) -> int {
    (r.num * 10000 + r.den / 2) / r.den
}

/// The rendering of a rational rounded to four decimal places.
pub open spec fn spec_fixed4(r: Ratio) -> Seq<char> {
    let scaled = spec_scaled4(r);
    spec_dec(scaled / 10000) + seq!['.'] + seq![
        spec_digit(scaled % 10000 / 1000),
        spec_digit(scaled % 10000 / 100 % 10),
        spec_digit(scaled % 10000 / 10 % 10),
        spec_digit(scaled % 10),
    ]
}

fn digit_str(d: u128) -> (r: &'static str)
    requires
        d < 10,
    ensures
        r@ =~= seq![spec_digit(d as int)],
{
    proof {
        reveal_strlit("0");
        reveal_strlit("1");
        reveal_strlit("2");
        reveal_strlit("3");
        reveal_strlit("4");
        reveal_strlit("5");
        reveal_strlit("6");
        reveal_strlit("7");
        reveal_strlit("8");
        reveal_strlit("9");
    }
    if d == 0 {
        "0"
    } else if d == 1 {
        "1"
    } else if d == 2 {
        "2"
    } else if d == 3 {
        "3"
    } else if d == 4 {
        "4"
    } else if d == 5 {
        "5"
    } else if d == 6 {
        "6"
    } else if d == 7 {
        "7"
    } else if d == 8 {
        "8"
    } else {
        "9"
    }
}

/// Renders a machine integer in decimal.
pub fn dec_u128(n: u128) -> (r: String)
    ensures
        r@ == spec_dec(n as int),
    decreases n,
{
    if n < 10 {
        let s = digit_str(n);
        s.to_owned()
    } else {
        proof {
            assert(n / 10 < n) by (nonlinear_arith)
                requires
                    n >= 10,
            ;
        }
        let mut s = dec_u128(n / 10);
        let last = digit_str(n % 10);
        s.append(last);
        proof {
            assert(s@ =~= spec_dec(n as int / 10).push(spec_digit(n as int % 10)));
        }
        s
    }
}

/// Renders a narrower machine integer in decimal.
pub fn dec_u64(n: u64) -> (r: String)
    ensures
        r@ == spec_dec(n as int),
{
    dec_u128(n as u128)
}

/// Renders an exact rational as `numerator/denominator`.
pub fn rat_slash(r: Rat) -> (s: String)
    requires
        r.wf(),
    ensures
        s@ == spec_slash(r@),
{
    proof {
        reveal_strlit("/");
    }
    let mut out = dec_u128(r.num);
    out.append("/");
    let den = dec_u128(r.den);
    out.append(den.as_str());
    proof {
        assert(out@ =~= spec_slash(r@));
    }
    out
}

/// Renders an exact rational rounded to four decimal places.
pub fn rat_fixed4(r: Rat) -> (s: String)
    requires
        r.wf(),
        spec_fixed4_ok(r@),
    ensures
        s@ == spec_fixed4(r@),
{
    proof {
        reveal_strlit(".");
    }
    let scaled: u128 = (r.num * 10000 + r.den / 2) / r.den;
    let mut out = dec_u128(scaled / 10000);
    out.append(".");
    let frac: u128 = scaled % 10000;
    let d3 = digit_str(frac / 1000);
    out.append(d3);
    let d2 = digit_str(frac / 100 % 10);
    out.append(d2);
    let d1 = digit_str(frac / 10 % 10);
    out.append(d1);
    let d0 = digit_str(frac % 10);
    out.append(d0);
    proof {
        assert(out@ =~= spec_fixed4(r@));
    }
    out
}

} // verus!
