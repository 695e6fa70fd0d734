//! Exact fractions, where the runtime weighs one quantity against another.
use vstd::prelude::*;

verus! {

/// A non-negative factor, in thousandths.
#[derive(Debug, Clone, Copy, PartialEq, Eq, Structural)]
pub struct Milli(pub u32);

/// The fraction `num / den`.
#[derive(Debug, Clone, Copy, PartialEq, Eq, Structural)]
pub struct Ratio {
    pub num: u64,
    pub den: u64,
}

impl Ratio {
    /// `num / den >= t / 1000`, for a positive denominator.
    pub open spec fn reaches(self, t: Milli) -> bool {
        self.num * 1000 >= t.0 * self.den
    }

    /// `num / den >= t / 1000`, for a positive denominator.
    pub fn at_least(&self, t: Milli) -> (res: bool)
        ensures
            res == self.reaches(t),
    {
        assert(0 <= t.0 * self.den <= u32::MAX * u64::MAX) by (nonlinear_arith)
            requires
                0 <= t.0 <= u32::MAX,
                0 <= self.den <= u64::MAX,
        ;
        (self.num as u128) * 1000 >= (t.0 as u128) * (self.den as u128)
    }
}

/// Whatever reaches a threshold reaches every lower one.
pub proof fn law_thresholds_nest(r: Ratio, low: Milli, high: Milli)
    requires
        low.0 <= high.0,
        r.reaches(high),
    ensures
        r.reaches(low),
{
    assert(low.0 * r.den <= high.0 * r.den) by (nonlinear_arith)
        requires
            low.0 <= high.0,
            0 <= r.den,
    ;
}

} // verus!
