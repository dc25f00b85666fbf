//! Exact non-negative rational numbers in `[0, 1]`, used to represent win
//! rates and confidence-adjusted win chances without floating point.

use vstd::prelude::*;

verus! {

/// A fraction `num / den`. Every rate or chance this library produces is a
/// proper fraction: `num <= den` and `den >= 1`, so the value lies in `[0, 1]`.
#[derive(Clone, Copy, PartialEq, Eq, Structural, Debug)]
pub struct Ratio {
    pub num: u64,
    pub den: u64,
}

impl Ratio {
    /// A well-formed ratio is a proper fraction.
    pub open spec fn wf(&self) -> bool {
        &&& self.den >= 1
        &&& self.num <= self.den
    }

    /// `self <= other` as rational numbers (cross multiplication).
    pub open spec fn spec_le(&self, other: Ratio) -> bool {
        self.num * other.den <= other.num * self.den
    }

    /// The whole-percentage value of the fraction, rounded toward zero.
    pub open spec fn spec_percent(&self) -> int {
        100 * (self.num as int) / (self.den as int)
    }

    /// The value in ten-thousandths, rounded toward zero.
    pub open spec fn spec_permyriad(&self) -> int {
        10000 * (self.num as int) / (self.den as int)
    }

    pub fn new(num: u64, den: u64) -> (r: Ratio)
        requires
            den >= 1,
            num <= den,
        ensures
            r.num == num,
            r.den == den,
            r.wf(),
    {
        Ratio { num, den }
    }

    /// Compares two ratios as rational numbers, without overflow.
    pub fn le(&self, other: &Ratio) -> (r: bool)
        requires
            self.wf(),
            other.wf(),
        ensures
            r == self.spec_le(*other),
    {
        proof {
            lemma_u64_product_fits(self.num as int, other.den as int);
            lemma_u64_product_fits(other.num as int, self.den as int);
        }
        let left: u128 = (self.num as u128) * (other.den as u128);
        let right: u128 = (other.num as u128) * (self.den as u128);
        left <= right
    }

    /// The value of this ratio as a whole percentage, rounded toward zero.
    pub fn percent(&self) -> (p: u64)
        requires
            self.wf(),
        ensures
            p == self.spec_percent(),
            p <= 100,
    {
        let p128: u128 = (100u128 * (self.num as u128)) / (self.den as u128);
        proof {
            lemma_scaled_div_bound(self.num as int, self.den as int, 100);
        }
        p128 as u64
    }

    /// The value of this ratio in ten-thousandths, rounded toward zero.
    /// This fixed-point projection is what the composition scorer averages.
    pub fn permyriad(&self) -> (p: u64)
        requires
            self.wf(),
        ensures
            p == self.spec_permyriad(),
            p <= 10000,
    {
        let p128: u128 = (10000u128 * (self.num as u128)) / (self.den as u128);
        proof {
            lemma_scaled_div_bound(self.num as int, self.den as int, 10000);
        }
        p128 as u64
    }
}

/// Transitivity of the rational order `a1/b1 <= a2/b2 <= a3/b3`, stated by
/// cross multiplication over positive denominators.
pub proof fn lemma_rational_le_trans(a1: int, b1: int, a2: int, b2: int, a3: int, b3: int)
    requires
        b1 >= 1,
        b2 >= 1,
        b3 >= 1,
        a1 * b2 <= a2 * b1,
        a2 * b3 <= a3 * b2,
    ensures
        a1 * b3 <= a3 * b1,
{
    assert((a1 * b2) * b3 <= (a2 * b1) * b3) by (nonlinear_arith)
        requires
            a1 * b2 <= a2 * b1,
            b3 >= 1,
    ;
    assert((a2 * b3) * b1 <= (a3 * b2) * b1) by (nonlinear_arith)
        requires
            a2 * b3 <= a3 * b2,
            b1 >= 1,
    ;
    assert((a2 * b1) * b3 == (a2 * b3) * b1) by (nonlinear_arith);
    assert((a1 * b2) * b3 <= (a3 * b2) * b1);
    assert(a1 * b3 <= a3 * b1) by (nonlinear_arith)
        requires
            (a1 * b2) * b3 <= (a3 * b2) * b1,
            b2 >= 1,
    ;
}

/// The product of two 64-bit values always fits in 128 bits.
proof fn lemma_u64_product_fits(a: int, b: int)
    requires
        0 <= a <= u64::MAX,
        0 <= b <= u64::MAX,
    ensures
        0 <= a * b <= u128::MAX,
{
    assert(a * b <= (u64::MAX as int) * (u64::MAX as int)) by (nonlinear_arith)
        requires
            0 <= a <= u64::MAX,
            0 <= b <= u64::MAX,
    ;
    assert(a * b >= 0) by (nonlinear_arith)
        requires
            0 <= a,
            0 <= b,
    ;
}

/// For a proper fraction `n / d` and scale `s`, the scaled and truncated
/// value `s * n / d` is at most `s`.
pub proof fn lemma_scaled_div_bound(n: int, d: int, s: int)
    requires
        0 <= n <= d,
        d >= 1,
        s >= 0,
    ensures
        0 <= s * n / d <= s,
{
    assert(s * n <= s * d) by (nonlinear_arith)
        requires
            0 <= n <= d,
            s >= 0,
    ;
    assert(s * d / d == s) by (nonlinear_arith)
        requires
            d >= 1,
    ;
    assert(s * n / d <= s * d / d) by (nonlinear_arith)
        requires
            s * n <= s * d,
            d >= 1,
    ;
    assert(s * n / d >= 0) by (nonlinear_arith)
        requires
            s * n >= 0,
            d >= 1,
    ;
}

} // verus!
