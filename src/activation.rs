//! The clipped-ramp activation, evaluated exactly on rationals.
use vstd::prelude::*;

verus! {

/// Largest magnitude of a weighted-sum numerator that `activate` takes.
pub const SUM_BOUND: i64 = 0x100_0000_0000;

/// The ramp, scaled by `q > 0`: `q * ameo(u / q)`.
pub open spec fn ramp(u: int, q: int) -> int {
    if u <= -2 * q {
        0
    } else if u <= -q {
        u + 2 * q
    } else if u <= 0 {
        -u
    } else if u <= q {
        u
    } else {
        q
    }
}

/// The slope of the ramp at `u / q`: `0`, `1` or `-1`, taking the left
/// piece at each corner.
pub open spec fn ramp_slope(u: int, q: int) -> int {
    if u <= -2 * q {
        0
    } else if u <= -q {
        1
    } else if u <= 0 {
        -1
    } else if u <= q {
        1
    } else {
        0
    }
}

/// An exact rational value `num / den`.
#[derive(Clone, Copy, Debug, PartialEq, Eq, Structural)]
pub struct Ratio {
    pub num: i128,
    pub den: i128,
}

/// The activation unit: the pre-activation of a weighted sum `x` is
/// `u = scale * x - shift`, and the output is `2 * (ameo(u) - 1/2)`.
/// Scale and shift are the rationals `scale_num / scale_den` and
/// `shift_num / shift_den`.
#[derive(Clone, Copy, Debug, PartialEq, Eq, Structural)]
pub struct Activation {
    pub scale_num: i32,
    pub scale_den: i32,
    pub shift_num: i32,
    pub shift_den: i32,
}

impl Activation {
    pub open spec fn wf(self) -> bool {
        self.scale_den > 0 && self.shift_den > 0
    }

    /// Denominator of the pre-activation, and of the output, for a weighted
    /// sum `x_num / x_den`.
    pub open spec fn den_of(self, x_den: int) -> int {
        self.scale_den * x_den * self.shift_den
    }

    /// Numerator of the pre-activation `u`, over `den_of(x_den)`.
    pub open spec fn pre_num(self, x_num: int, x_den: int) -> int {
        self.scale_num * x_num * self.shift_den - self.shift_num * self.scale_den * x_den
    }

    /// Numerator of the output, over `den_of(x_den)`.
    pub open spec fn out_num(self, x_num: int, x_den: int) -> int {
        2 * ramp(self.pre_num(x_num, x_den), self.den_of(x_den)) - self.den_of(x_den)
    }

    /// Scale 3/2 and shift 1/2.
    pub fn canonical() -> (r: Activation)
        ensures
            r == (Activation { scale_num: 3, scale_den: 2, shift_num: 1, shift_den: 2 }),
            r.wf(),
    {
        Activation { scale_num: 3, scale_den: 2, shift_num: 1, shift_den: 2 }
    }

    /// Scale 1/2 and shift 1/2.
    pub fn half_scale() -> (r: Activation)
        ensures
            r == (Activation { scale_num: 1, scale_den: 2, shift_num: 1, shift_den: 2 }),
            r.wf(),
    {
        Activation { scale_num: 1, scale_den: 2, shift_num: 1, shift_den: 2 }
    }

    /// The output for the weighted sum `x_num / x_den`, exactly.
    pub fn activate(&self, x_num: i64, x_den: i64) -> (r: Ratio)
        requires
            self.wf(),
            0 < x_den <= i32::MAX,
            -SUM_BOUND <= x_num <= SUM_BOUND,
        ensures
            r.den == self.den_of(x_den as int),
            r.num == self.out_num(x_num as int, x_den as int),
            0 < r.den <= 0x2000_0000_0000_0000_0000_0000,
            -r.den <= r.num <= r.den,
    {
        let sn = self.scale_num as i128;
        let sd = self.scale_den as i128;
        let hn = self.shift_num as i128;
        let hd = self.shift_den as i128;
        let xn = x_num as i128;
        let xd = x_den as i128;
        proof {
            lemma_mul_bound(sn as int, xn as int, 0x8000_0000, 0x100_0000_0000);
            lemma_mul_bound(hn as int, sd as int, 0x8000_0000, 0x8000_0000);
            lemma_mul_bound(sd as int, xd as int, 0x8000_0000, 0x8000_0000);
            lemma_mul_bound(sn * xn, hd as int, 0x8000_0000int * 0x100_0000_0000int, 0x8000_0000);
            lemma_mul_bound(hn * sd, xd as int, 0x8000_0000int * 0x8000_0000int, 0x8000_0000);
            lemma_mul_bound(sd * xd, hd as int, 0x8000_0000int * 0x8000_0000int, 0x8000_0000);
            assert(sd * xd > 0) by (nonlinear_arith)
                requires
                    sd > 0,
                    xd > 0,
            ;
            assert(sd * xd * hd > 0) by (nonlinear_arith)
                requires
                    sd * xd > 0,
                    hd > 0,
            ;
        }
        let q = sd * xd * hd;
        let u = sn * xn * hd - hn * sd * xd;
        assert(0 < q <= 0x2000_0000_0000_0000_0000_0000);
        assert(-0x1_0000_0000_0000_0000_0000_0000_0000 <= u <= 0x1_0000_0000_0000_0000_0000_0000_0000);
        let q2: i128 = 2 * q;
        let a: i128 = if u <= -q2 {
            0
        } else if u <= -q {
            u + q2
        } else if u <= 0 {
            -u
        } else if u <= q {
            u
        } else {
            q
        };
        Ratio { num: 2 * a - q, den: q }
    }
}

impl Activation {
    /// The derivative of the output with respect to the weighted sum
    /// `x_num / x_den`: `2 * scale * ramp'(u)`.
    pub fn derivative(&self, x_num: i64, x_den: i64) -> (r: Ratio)
        requires
            self.wf(),
            0 < x_den <= i32::MAX,
            -SUM_BOUND <= x_num <= SUM_BOUND,
        ensures
            r.den == self.scale_den,
            r.num == 2 * self.scale_num * ramp_slope(self.pre_num(x_num as int, x_den as int), self.den_of(x_den as int)),
    {
        let v = self.activate(x_num, x_den);
        let sn = self.scale_num as i128;
        let sd = self.scale_den as i128;
        let hn = self.shift_num as i128;
        let hd = self.shift_den as i128;
        let xn = x_num as i128;
        let xd = x_den as i128;
        proof {
            lemma_mul_bound(sn as int, xn as int, 0x8000_0000, 0x100_0000_0000);
            lemma_mul_bound(hn as int, sd as int, 0x8000_0000, 0x8000_0000);
            lemma_mul_bound(sn * xn, hd as int, 0x8000_0000int * 0x100_0000_0000int, 0x8000_0000);
            lemma_mul_bound(hn * sd, xd as int, 0x8000_0000int * 0x8000_0000int, 0x8000_0000);
        }
        let q = v.den;
        let u = sn * xn * hd - hn * sd * xd;
        let q2: i128 = 2 * q;
        let slope: i128 = if u <= -q2 {
            0
        } else if u <= -q {
            1
        } else if u <= 0 {
            -1
        } else if u <= q {
            1
        } else {
            0
        };
        assert(-1 <= slope <= 1);
        assert(-0x1_0000_0000 <= 2 * sn * slope <= 0x1_0000_0000) by (nonlinear_arith)
            requires
                -0x8000_0000 <= sn <= 0x8000_0000,
                -1 <= slope <= 1,
        ;
        Ratio { num: 2 * sn * slope, den: sd }
    }
}

proof fn lemma_mul_bound(a: int, b: int, ba: int, bb: int)
    requires
        -ba <= a <= ba,
        -bb <= b <= bb,
    ensures
        -(ba * bb) <= a * b <= ba * bb,
{
    assert(-(ba * bb) <= a * b <= ba * bb) by (nonlinear_arith)
        requires
            -ba <= a <= ba,
            -bb <= b <= bb,
    ;
}

/// The output never decreases as the weighted sum grows, so long as both
/// pre-activations lie on one rising side of the ramp: both at most `-1`,
/// or both at least `0`.
pub proof fn lemma_activate_monotone(act: Activation, x1: int, x2: int, d: int)
    requires
        act.wf(),
        act.scale_num >= 0,
        d > 0,
        x1 <= x2,
        act.pre_num(x2, d) <= -act.den_of(d) || act.pre_num(x1, d) >= 0,
    ensures
        act.out_num(x1, d) <= act.out_num(x2, d),
{
    let sn = act.scale_num as int;
    let hd = act.shift_den as int;
    assert(sn * x1 * hd <= sn * x2 * hd) by (nonlinear_arith)
        requires
            sn >= 0,
            hd > 0,
            x1 <= x2,
    ;
    assert(act.den_of(d) > 0) by (nonlinear_arith)
        requires
            act.scale_den > 0,
            act.shift_den > 0,
            d > 0,
    ;
}

} // verus!
