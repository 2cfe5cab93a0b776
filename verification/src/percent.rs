use vstd::prelude::*;
use crate::can_apply::CanApply;

verus! {

/// A percentage with one decimal place: the value 1000 stands for 100.0 %.
#[derive(Debug, Clone, Copy, PartialEq, Eq, Structural)]
pub struct PercentU16 {
    value: u16,
}

/// Upper bound of percentages made from rates: 200.0 %.
pub const MAX_VALUE: i32 = 2000;
/// Lower bound of percentages made from rates: 0.0 %.
pub const MIN_VALUE: i32 = 0;
/// The value standing for 100.0 %.
pub const HUNDRED_VALUE: u16 = 1000;

impl View for PercentU16 {
    type V = int;

    closed spec fn view(&self) -> int {
        self.value as int
    }
}

/// A value scaled by a percentage in tenths of a percent, truncated, and cut to
/// 32 bits.
pub open spec fn percent_applied(permille: int, value: u32) -> u32 {
    ((value as int * permille) / 1000) as u32
}

impl PercentU16 {
    /// The percentage of the given value in tenths of a percent.
    pub fn from_value(value: u16) -> (r: PercentU16)
        ensures
            r@ == value,
    {
        PercentU16 { value }
    }

    /// The value in tenths of a percent.
    pub fn value(self) -> (r: u16)
        ensures
            r == self@,
    {
        self.value
    }

    /// 200.0 %.
    #[allow(non_snake_case)]
    pub fn MAX() -> (r: PercentU16)
        ensures
            r@ == MAX_VALUE,
    {
        PercentU16 { value: 2000 }
    }

    /// 0.0 %.
    #[allow(non_snake_case)]
    pub fn MIN() -> (r: PercentU16)
        ensures
            r@ == MIN_VALUE,
    {
        PercentU16 { value: 0 }
    }

    /// 0.0 %.
    #[allow(non_snake_case)]
    pub fn ZERO() -> (r: PercentU16)
        ensures
            r@ == 0,
    {
        PercentU16 { value: 0 }
    }

    /// 100.0 %.
    #[allow(non_snake_case)]
    pub fn HUNDRED() -> (r: PercentU16)
        ensures
            r@ == HUNDRED_VALUE,
    {
        PercentU16 { value: HUNDRED_VALUE }
    }

    /// The percentage of a rate given in thousandths (1000 = 100 %), clamped to 0 ..= 2000.
    pub fn from_permille(permille: i32) -> (r: PercentU16)
        ensures
            r@ == if permille < MIN_VALUE { MIN_VALUE as int } else if MAX_VALUE < permille { MAX_VALUE as int } else { permille as int },
    {
        if permille < MIN_VALUE {
            PercentU16 { value: 0 }
        } else if MAX_VALUE < permille {
            PercentU16 { value: 2000 }
        } else {
            PercentU16 { value: permille as u16 }
        }
    }
}

impl CanApply<u32> for PercentU16 {
    open spec fn applied(self, value: u32) -> u32 {
        percent_applied(self@, value)
    }

    fn apply(self, value: u32) -> (r: u32) {
        let i: u64 = value as u64;
        let p: u64 = self.value as u64;
        assert(i * p <= 0xffff_ffff * 0xffff) by (nonlinear_arith)
            requires i <= 0xffff_ffff, p <= 0xffff;
        ((i * self.value as u64) / HUNDRED_VALUE as u64) as u32
    }
}

} // verus!
