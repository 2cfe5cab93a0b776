use vstd::prelude::*;
use crate::numtext::{parse_u32, unsigned_text, decimal_digits, decimal_text};

verus! {

/// Error of reading a grid; holds the text.
#[derive(Debug, Clone, PartialEq, Eq)]
pub enum GridError {
    ParseError(String),
}

/// The snapping width for horizontal positions, in ticks (never 0).
#[derive(Debug, Clone, Copy, PartialEq, Eq, Structural)]
pub struct Grid {
    value: u32,
}

impl View for Grid {
    type V = int;

    closed spec fn view(&self) -> int {
        self.value as int
    }
}

/// Integer division truncating toward zero, for a positive divisor.
pub open spec fn div_toward_zero(a: int, b: int) -> int
    recommends
        b > 0,
{
    if a >= 0 {
        a / b
    } else {
        -((-a) / b)
    }
}

/// A tick snapped to the nearest multiple of the grid width; halfway points
/// go away from zero.
pub open spec fn snapped(width: int, tick: int) -> int {
    if tick < 0 {
        width * div_toward_zero(tick - width / 2, width)
    } else {
        width * div_toward_zero(tick + width / 2, width)
    }
}

impl Grid {
    #[verifier::type_invariant]
    closed spec fn inv(self) -> bool {
        self.value != 0
    }

    /// The grid of a decimal text; fails with the text when it is no number in
    /// 0 ..= u32::MAX, and with "0" for zero.
    pub fn value_of(s: &str) -> (r: Result<Grid, GridError>)
        ensures
            match unsigned_text(s@) {
                Some(v) if v <= u32::MAX =>
                    if v == 0 {
                        (r matches Err(GridError::ParseError(t)) && t@ == seq!['0'])
                    } else {
                        r is Ok && r->Ok_0@ == v
                    },
                _ => (r matches Err(GridError::ParseError(t)) && t@ == s@),
            },
    {
        match parse_u32(s) {
            Err(_) => Err(GridError::ParseError(s.to_owned())),
            Ok(i) => Self::from_u32(i),
        }
    }

    /// The grid of the given width; fails for 0 with the text "0".
    pub fn from_u32(i: u32) -> (r: Result<Grid, GridError>)
        ensures
            i == 0 ==> (r matches Err(GridError::ParseError(t)) && t@ == seq!['0']),
            i != 0 ==> r is Ok && r->Ok_0@ == i,
    {
        if i == 0 {
            let z = "0";
            proof { reveal_strlit("0"); }
            Err(GridError::ParseError(z.to_owned()))
        } else {
            Ok(Grid { value: i })
        }
    }

    pub fn as_u32(self) -> (r: u32)
        ensures
            r == self@,
            r != 0,
    {
        proof { use_type_invariant(&self); }
        self.value
    }

    /// The decimal text of this grid's width.
    pub fn to_text(self) -> (r: String)
        ensures
            r@ == decimal_digits(self@ as nat),
    {
        decimal_text(self.value as u64)
    }

    /// The tick snapped to the nearest multiple of this grid's width.
    pub fn snap(self, tick: i64) -> (r: i64)
        requires
            tick < 0 ==> i64::MIN <= tick - self@ / 2,
            tick >= 0 ==> tick + self@ / 2 <= i64::MAX,
        ensures
            r == snapped(self@, tick as int),
    {
        proof { use_type_invariant(&self); }
        let i: i64 = self.value as i64;
        if tick < 0 {
            let n: i128 = tick as i128 - (i / 2) as i128;
            let m: u128 = (-n) as u128;
            let iu: u128 = i as u128;
            let q: u128 = m / iu;
            assert(q * iu <= m) by (nonlinear_arith)
                requires q == m / iu, iu > 0;
            let p: u128 = q * iu;
            assert(m <= 0x8000_0000_0000_0000);
            let r: i128 = -(p as i128);
            assert(r >= i64::MIN);
            assert(-n == m);
            assert(q == (-n) / self@);
            assert(div_toward_zero(n as int, self@) == -(q as int));
            assert(n == tick - self@ / 2);
            assert(self@ * (-(q as int)) == -((q * iu) as int)) by (nonlinear_arith)
                requires iu == self@;
            r as i64
        } else {
            let n: i64 = tick + i / 2;
            let q: i64 = ((n as u64) / (i as u64)) as i64;
            assert(q * i <= n) by (nonlinear_arith)
                requires q == (n as u64) / (i as u64), i > 0, n >= 0;
            assert(q == (n as int) / self@);
            assert(n == tick + self@ / 2);
            i * q
        }
    }
}

impl Default for Grid {
    /// A width of 60 ticks.
    fn default() -> (r: Grid)
        ensures
            r@ == 60,
    {
        Grid { value: 60 }
    }
}

} // verus!
