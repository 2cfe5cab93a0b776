use vstd::prelude::*;
use std::str::FromStr;
use crate::numtext::{parse_u8, unsigned_text, decimal_digits};

verus! {

pub const MIN_NUMERATOR: u8 = 1;
pub const MAX_NUMERATOR: u8 = 99;

/// What a text reads as where a time signature numerator is asked for: the
/// numerator of the number it writes (0 ..= 255), an error with the number
/// outside 1 ..= 99, or an error with the text where it writes no such number.
pub open spec fn parses_numerator(s: Seq<char>, r: Result<Numerator, NumeratorError>) -> bool {
    match unsigned_text(s) {
        Some(v) if v <= 255 =>
            if MIN_NUMERATOR <= v <= MAX_NUMERATOR {
                r is Ok && r->Ok_0@ == v
            } else {
                r == Err::<Numerator, NumeratorError>(NumeratorError::InvalidValue(v as u8))
            },
        _ => r matches Err(NumeratorError::CannotParse(t)) && t@ == s,
    }
}

/// Beats per bar in a time signature, 1 ..= 99.
#[derive(Debug, Copy, Clone, PartialEq, Eq, Structural)]
pub struct Numerator(u8);

/// Error of reading a time signature numerator.
#[derive(Debug, Clone, PartialEq, Eq)]
pub enum NumeratorError {
    /// The value is outside 1 ..= 99.
    InvalidValue(u8),
    /// The text is no number in 0 ..= 255.
    CannotParse(String),
}

impl View for Numerator {
    type V = int;

    closed spec fn view(&self) -> int {
        self.0 as int
    }
}

impl Numerator {
    /// Values with one view are the same.
    pub proof fn lemma_view_eq(a: Numerator, b: Numerator)
        requires
            a@ == b@,
        ensures
            a == b,
    {
    }

    #[verifier::type_invariant]
    closed spec fn inv(self) -> bool {
        MIN_NUMERATOR <= self.0 <= MAX_NUMERATOR
    }

    pub fn from_value(value: u8) -> (r: Result<Numerator, NumeratorError>)
        ensures
            MIN_NUMERATOR <= value <= MAX_NUMERATOR ==> r is Ok && r->Ok_0@ == value,
            !(MIN_NUMERATOR <= value <= MAX_NUMERATOR) ==> r == Err::<Numerator, NumeratorError>(NumeratorError::InvalidValue(value)),
    {
        if value < MIN_NUMERATOR || MAX_NUMERATOR < value {
            Err(NumeratorError::InvalidValue(value))
        } else {
            Ok(Numerator(value))
        }
    }

    pub fn value(self) -> (r: u8)
        ensures
            r == self@,
            MIN_NUMERATOR <= r <= MAX_NUMERATOR,
    {
        proof { use_type_invariant(&self); }
        self.0
    }

    /// Reads a numerator from its decimal text.
    pub fn parse(s: &str) -> (r: Result<Numerator, NumeratorError>)
        ensures
            parses_numerator(s@, r),
    {
        match parse_u8(s) {
            Ok(value) => Self::from_value(value),
            Err(_) => Err(NumeratorError::CannotParse(s.to_owned())),
        }
    }

    /// The decimal text of this numerator.
    pub fn to_text(self) -> (r: String)
        ensures
            r@ == decimal_digits(self@ as nat),
    {
        crate::numtext::decimal_text(self.0 as u64)
    }
}

impl FromStr for Numerator {
    type Err = NumeratorError;

    fn from_str(s: &str) -> (r: Result<Numerator, NumeratorError>)
        ensures
            parses_numerator(s@, r),
    {
        Numerator::parse(s)
    }
}

/// Note value that gets one beat in a time signature.
#[derive(Clone, Copy, Debug, PartialEq, Eq, Structural)]
pub enum Denominator {
    D2,
    D4,
    D8,
    D16,
    D32,
    D64,
}

/// All beat note values in ascending order.
pub const DENOMINATORS: [Denominator; 6] = [
    Denominator::D2,
    Denominator::D4,
    Denominator::D8,
    Denominator::D16,
    Denominator::D32,
    Denominator::D64,
];

/// Error of reading a time signature denominator.
#[derive(Debug, Clone, Copy, PartialEq, Eq)]
pub enum DenominatorError {
    /// The value is no power of two in 2 ..= 64.
    InvalidValue(u8),
}

/// The number that a beat note value stands for.
pub open spec fn denominator_value(d: Denominator) -> int {
    match d {
        Denominator::D2 => 2,
        Denominator::D4 => 4,
        Denominator::D8 => 8,
        Denominator::D16 => 16,
        Denominator::D32 => 32,
        Denominator::D64 => 64,
    }
}

/// Whether a number is one of 2, 4, 8, 16, 32, 64.
pub open spec fn is_denominator_value(v: int) -> bool {
    v == 2 || v == 4 || v == 8 || v == 16 || v == 32 || v == 64
}

impl Denominator {
    pub fn from_value(value: u8) -> (r: Result<Denominator, DenominatorError>)
        ensures
            is_denominator_value(value as int) ==> r is Ok && denominator_value(r->Ok_0) == value,
            !is_denominator_value(value as int) ==> r == Err::<Denominator, DenominatorError>(DenominatorError::InvalidValue(value)),
    {
        match value {
            2 => Ok(Denominator::D2),
            4 => Ok(Denominator::D4),
            8 => Ok(Denominator::D8),
            16 => Ok(Denominator::D16),
            32 => Ok(Denominator::D32),
            64 => Ok(Denominator::D64),
            _ => Err(DenominatorError::InvalidValue(value)),
        }
    }

    pub fn value(self) -> (r: u8)
        ensures
            r == denominator_value(self),
    {
        match self {
            Denominator::D2 => 2,
            Denominator::D4 => 4,
            Denominator::D8 => 8,
            Denominator::D16 => 16,
            Denominator::D32 => 32,
            Denominator::D64 => 64,
        }
    }
}

/// Error of making a time signature; holds the invalid value.
#[derive(Debug, Copy, Clone, PartialEq, Eq)]
pub enum RhythmError {
    NumeratorError(u8),
    DenominatorError(u8),
}

/// A time signature.
#[derive(Debug, Copy, Clone, PartialEq, Eq, Structural)]
pub struct Rhythm {
    pub numerator: Numerator,
    pub denominator: Denominator,
}

/// Whether two numbers make a valid time signature.
pub open spec fn valid_rhythm(numerator: int, denominator: int) -> bool {
    MIN_NUMERATOR <= numerator <= MAX_NUMERATOR && is_denominator_value(denominator)
}

/// Ticks of one bar of a time signature: numerator beats of 960 / denominator
/// ticks each (truncated as a whole).
pub open spec fn rhythm_ticks(numerator: int, denominator: int) -> int {
    numerator * 240 * 4 / denominator
}

/// Ticks of one bar of a rhythm.
pub open spec fn rhythm_tick_len(r: Rhythm) -> int {
    rhythm_ticks(r.numerator@, denominator_value(r.denominator))
}

/// A bar of a time signature lasts no negative number of ticks.
pub proof fn lemma_tick_len_nonneg(r: Rhythm)
    ensures
        rhythm_tick_len(r) >= 0,
{
    let n = r.numerator@;
    let d = denominator_value(r.denominator);
    assert(n >= 0);
    assert(0 <= n * 240 * 4) by (nonlinear_arith)
        requires n >= 0;
    assert(0 <= n * 240 * 4 / d) by (nonlinear_arith)
        requires 0 <= n * 240 * 4, d > 0;
}

impl Rhythm {
    /// The time signature `numerator / denominator`, which must be valid.
    pub fn new(numerator: u8, denominator: u8) -> (r: Rhythm)
        requires
            valid_rhythm(numerator as int, denominator as int),
        ensures
            r.numerator@ == numerator,
            denominator_value(r.denominator) == denominator,
    {
        match Self::value_of(numerator, denominator) {
            Ok(r) => r,
            Err(_) => {
                proof { assert(false); }
                Rhythm { numerator: Numerator(4), denominator: Denominator::D4 }
            },
        }
    }

    pub fn numerator(self) -> (r: Numerator)
        ensures
            r == self.numerator,
    {
        self.numerator
    }

    pub fn denominator(self) -> (r: Denominator)
        ensures
            r == self.denominator,
    {
        self.denominator
    }

    /// The time signature `numerator / denominator`, or which of the two is invalid
    /// (the numerator is checked first).
    pub fn value_of(numerator: u8, denominator: u8) -> (r: Result<Rhythm, RhythmError>)
        ensures
            valid_rhythm(numerator as int, denominator as int) ==> r is Ok && r->Ok_0.numerator@ == numerator
                && denominator_value(r->Ok_0.denominator) == denominator,
            !(MIN_NUMERATOR <= numerator <= MAX_NUMERATOR) ==> r == Err::<Rhythm, RhythmError>(RhythmError::NumeratorError(numerator)),
            (MIN_NUMERATOR <= numerator <= MAX_NUMERATOR) && !is_denominator_value(denominator as int)
                ==> r == Err::<Rhythm, RhythmError>(RhythmError::DenominatorError(denominator)),
    {
        let numerator = match Numerator::from_value(numerator) {
            Err(NumeratorError::InvalidValue(v)) => return Err(RhythmError::NumeratorError(v)),
            Err(NumeratorError::CannotParse(_)) => return Err(RhythmError::NumeratorError(numerator)),
            Ok(n) => n,
        };
        let denominator = match Denominator::from_value(denominator) {
            Err(DenominatorError::InvalidValue(v)) => return Err(RhythmError::DenominatorError(v)),
            Ok(d) => d,
        };
        Ok(Rhythm { numerator, denominator })
    }

    /// Ticks of one bar.
    pub fn tick_len(self) -> (r: u32)
        ensures
            r == rhythm_tick_len(self),
            0 < r <= 47520,
    {
        let n: u32 = self.numerator.value() as u32;
        let d: u32 = self.denominator.value() as u32;
        assert((n * 960) as int / d as int <= 47520 && (n * 960) as int / d as int > 0) by (nonlinear_arith)
            requires 1 <= n <= 99, 2 <= d <= 64;
        n * 240 * 4 / d
    }
}

impl Default for Rhythm {
    /// Four-four time.
    fn default() -> (r: Rhythm)
        ensures
            r.numerator@ == 4,
            r.denominator == Denominator::D4,
    {
        Rhythm::new(4, 4)
    }
}

} // verus!
