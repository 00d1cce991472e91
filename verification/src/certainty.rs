//! Resolution certainty: an exact confidence score in [0, 1], kept as a
//! fraction of two integers so that threshold comparisons are exact.

use vstd::prelude::*;

verus! {

/// A confidence score in [0, 1], as the exact fraction `num / den`.
#[derive(Clone, Copy, Debug, PartialEq, Eq, Structural)]
pub struct Certainty {
    pub num: u64,
    pub den: u64,
}

impl Certainty {
    /// A well-formed score: a positive denominator and a value at most 1.
    pub open spec fn wf(self) -> bool {
        self.den > 0 && self.num <= self.den
    }

    /// The score is exactly 1.
    pub open spec fn is_one(self) -> bool {
        self.num == self.den
    }

    /// Full certainty: exactly 1.
    pub fn one() -> (r: Certainty)
        ensures
            r == (Certainty { num: 1u64, den: 1u64 }),
    {
        Certainty { num: 1, den: 1 }
    }

    /// No certainty: exactly 0.
    pub fn zero() -> (r: Certainty)
        ensures
            r == (Certainty { num: 0u64, den: 1u64 }),
    {
        Certainty { num: 0, den: 1 }
    }

    /// The fixed low confidence reported for matches that only an outside
    /// metadata lookup suggested: exactly 1/10.
    pub fn tenth() -> (r: Certainty)
        ensures
            r == (Certainty { num: 1u64, den: 10u64 }),
    {
        Certainty { num: 1, den: 10 }
    }

    /// Whether the score is at least the threshold `tn / td`.
    pub fn at_least(&self, tn: u64, td: u64) -> (r: bool)
        ensures
            r == frac_le(tn as int, td as int, self.num as int, self.den as int),
    {
        mul_u64(self.num, td) >= mul_u64(tn, self.den)
    }

    /// Whether this score is strictly above `other`.
    pub fn gt(&self, other: &Certainty) -> (r: bool)
        ensures
            r == frac_lt(other.num as int, other.den as int, self.num as int, self.den as int),
    {
        mul_u64(self.num, other.den) > mul_u64(other.num, self.den)
    }
}

/// The exact product of two 64-bit numbers, in 128 bits.
pub fn mul_u64(a: u64, b: u64) -> (r: u128)
    ensures
        r == a as int * b as int,
{
    proof {
        assert((a as int) * (b as int) <= 0xffff_ffff_ffff_ffff * 0xffff_ffff_ffff_ffff)
            by (nonlinear_arith)
            requires
                a as int <= 0xffff_ffff_ffff_ffff,
                b as int <= 0xffff_ffff_ffff_ffff,
                0 <= a as int,
                0 <= b as int,
        ;
    }
    (a as u128) * (b as u128)
}

/// The fraction `a_n / a_d` is at most `b_n / b_d`, by cross-multiplication.
pub open spec fn frac_le(a_n: int, a_d: int, b_n: int, b_d: int) -> bool {
    a_n * b_d <= b_n * a_d
}

/// The fraction `a_n / a_d` is strictly below `b_n / b_d`.
pub open spec fn frac_lt(a_n: int, a_d: int, b_n: int, b_d: int) -> bool {
    a_n * b_d < b_n * a_d
}

} // verus!
