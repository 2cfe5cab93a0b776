use vstd::prelude::*;
use std::num::ParseIntError;
use std::str::FromStr;
use crate::location::{Location, parse_location, location_text};
use crate::numtext::{parse_u8, parse_u16, parse_i16, unsigned_text, signed_text};
use crate::rhythm::{Numerator, NumeratorError, MIN_NUMERATOR, MAX_NUMERATOR};
use crate::duration::Denominator;
use crate::tempo::{TempoValue, MAX_TEMPO_VALUE};
use crate::velocity::{Velocity, MAX_VALUE};

verus! {

/// A value read from text input; `None` for empty input.
#[derive(Debug)]
pub struct Validated<T>(pub T);

/// Text that is not a location.
#[derive(Debug, PartialEq, Eq, Structural)]
pub enum LocationParseError {
    InvalidFormat,
}

/// Text that is no tuplet denominator: not a number in 0 ..= 255, or below 2.
#[derive(Debug, PartialEq, Eq, Structural)]
pub enum DurationDenominatorError {
    ParseIntError,
    InvalidValue,
}

/// What a text reads as where a signed 16-bit number is asked for: nothing
/// for empty text, else the number it writes if that fits.
pub open spec fn reads_i16(s: Seq<char>, r: Result<Validated<Option<i16>>, ParseIntError>) -> bool {
    (s.len() == 0 ==> r matches Ok(Validated(None)))
    && (s.len() > 0 ==> (r is Ok <==> (signed_text(s) matches Some(v) && i16::MIN <= v <= i16::MAX)))
    && (s.len() > 0 ==> (r matches Ok(Validated(x)) ==> x matches Some(v) && signed_text(s) == Some(v as int)))
}

/// What a text reads as where a velocity is asked for: nothing for empty
/// text, else the number it writes (0 ..= 255), taken down to the highest
/// velocity.
pub open spec fn reads_velocity(s: Seq<char>, r: Result<Validated<Option<Velocity>>, ParseIntError>) -> bool {
    (s.len() == 0 ==> r matches Ok(Validated(None)))
    && (s.len() > 0 ==> (r is Ok <==> (unsigned_text(s) matches Some(v) && v <= u8::MAX)))
    && (s.len() > 0 ==> (r matches Ok(Validated(x)) ==> x matches Some(vel) && unsigned_text(s) matches Some(v)
        && vel@ == if MAX_VALUE < v { MAX_VALUE as int } else { v }))
}

/// What a text reads as where a time signature numerator is asked for.
pub open spec fn reads_numerator(s: Seq<char>, r: Result<Validated<Option<Numerator>>, NumeratorError>) -> bool {
    (s.len() == 0 ==> r matches Ok(Validated(None)))
    && (s.len() > 0 ==> match unsigned_text(s) {
        Some(v) if v <= 255 =>
            if MIN_NUMERATOR <= v <= MAX_NUMERATOR {
                r matches Ok(Validated(Some(n))) && n@ == v
            } else {
                r == Err::<Validated<Option<Numerator>>, NumeratorError>(NumeratorError::InvalidValue(v as u8))
            },
        _ => r matches Err(NumeratorError::CannotParse(t)) && t@ == s,
    })
}

/// What a text reads as where a tuplet denominator is asked for.
pub open spec fn reads_denominator(s: Seq<char>, r: Result<Validated<Option<Denominator>>, DurationDenominatorError>) -> bool {
    (s.len() == 0 ==> r matches Ok(Validated(None)))
    && (s.len() > 0 ==> match unsigned_text(s) {
        Some(v) if v <= 255 =>
            if 2 <= v {
                r matches Ok(Validated(Some(d))) && d@ == v
            } else {
                r == Err::<Validated<Option<Denominator>>, DurationDenominatorError>(DurationDenominatorError::InvalidValue)
            },
        _ => r == Err::<Validated<Option<Denominator>>, DurationDenominatorError>(DurationDenominatorError::ParseIntError),
    })
}

impl Validated<Option<Location>> {
    /// Reads a location `<bar>:<offset>` (see `parse_location`).
    pub fn parse_text(s: &str) -> (r: Result<Validated<Option<Location>>, LocationParseError>)
        requires
            location_text(s@) matches Some((b, o)) ==> b <= usize::MAX && o <= usize::MAX,
        ensures
            s@.len() == 0 ==> r matches Ok(Validated(None)),
            s@.len() > 0 ==> match location_text(s@) {
                Some((b, o)) => r matches Ok(Validated(Some(l))) && l.bar_no_spec() == b && l.offset_spec() == o,
                None => r == Err::<Validated<Option<Location>>, LocationParseError>(LocationParseError::InvalidFormat),
            },
    {
        if s.unicode_len() == 0 {
            Ok(Validated(None))
        } else {
            match parse_location(s) {
                Some(loc) => Ok(Validated(Some(loc))),
                None => Err(LocationParseError::InvalidFormat),
            }
        }
    }
}

impl Validated<Option<i16>> {
    /// Reads a signed 16-bit number.
    pub fn parse_text(s: &str) -> (r: Result<Validated<Option<i16>>, ParseIntError>)
        ensures
            reads_i16(s@, r),
    {
        if s.unicode_len() == 0 {
            Ok(Validated(None))
        } else {
            match parse_i16(s) {
                Ok(i) => Ok(Validated(Some(i))),
                Err(e) => Err(e),
            }
        }
    }
}

impl Validated<Option<TempoValue>> {
    /// Reads a tempo; the number must not pass the highest tempo.
    pub fn parse_text(s: &str) -> (r: Result<Validated<Option<TempoValue>>, ParseIntError>)
        requires
            unsigned_text(s@) matches Some(v) ==> (v <= u16::MAX ==> v <= MAX_TEMPO_VALUE),
        ensures
            s@.len() == 0 ==> r matches Ok(Validated(None)),
            s@.len() > 0 ==> (r is Ok <==> (unsigned_text(s@) matches Some(v) && v <= u16::MAX)),
            s@.len() > 0 ==> (r matches Ok(Validated(x)) ==> x matches Some(t) && unsigned_text(s@) == Some(t@)),
    {
        if s.unicode_len() == 0 {
            Ok(Validated(None))
        } else {
            match parse_u16(s) {
                Ok(u) => Ok(Validated(Some(TempoValue::new(u)))),
                Err(e) => Err(e),
            }
        }
    }
}

impl Validated<Option<Velocity>> {
    /// Reads a velocity; numbers above the highest velocity are taken as it.
    pub fn parse_text(s: &str) -> (r: Result<Validated<Option<Velocity>>, ParseIntError>)
        ensures
            reads_velocity(s@, r),
    {
        if s.unicode_len() == 0 {
            Ok(Validated(None))
        } else {
            match parse_u8(s) {
                Ok(u) => Ok(Validated(Some(Velocity::new(u)))),
                Err(e) => Err(e),
            }
        }
    }
}

impl Validated<Option<Numerator>> {
    /// Reads a time signature numerator (see `Numerator::parse`).
    pub fn parse_text(s: &str) -> (r: Result<Validated<Option<Numerator>>, NumeratorError>)
        ensures
            reads_numerator(s@, r),
    {
        if s.unicode_len() == 0 {
            Ok(Validated(None))
        } else {
            match Numerator::parse(s) {
                Ok(n) => Ok(Validated(Some(n))),
                Err(e) => Err(e),
            }
        }
    }
}

impl Validated<Option<Denominator>> {
    /// Reads a tuplet denominator.
    pub fn parse_text(s: &str) -> (r: Result<Validated<Option<Denominator>>, DurationDenominatorError>)
        ensures
            reads_denominator(s@, r),
    {
        if s.unicode_len() == 0 {
            Ok(Validated(None))
        } else {
            match parse_u8(s) {
                Ok(u) => match Denominator::from_value(u) {
                    Some(d) => Ok(Validated(Some(d))),
                    None => Err(DurationDenominatorError::InvalidValue),
                },
                Err(_) => Err(DurationDenominatorError::ParseIntError),
            }
        }
    }
}

impl FromStr for Validated<Option<i16>> {
    type Err = ParseIntError;

    fn from_str(s: &str) -> (r: Result<Validated<Option<i16>>, ParseIntError>)
        ensures
            reads_i16(s@, r),
    {
        Self::parse_text(s)
    }
}

impl ParseInput for Validated<Option<i16>> {
    type Err = ParseIntError;

    open spec fn reads(s: Seq<char>, r: Result<Validated<Option<i16>>, ParseIntError>) -> bool {
        reads_i16(s, r)
    }

    fn parse_input(s: &str) -> (r: Result<Validated<Option<i16>>, ParseIntError>) {
        Self::parse_text(s)
    }
}

impl FromStr for Validated<Option<Velocity>> {
    type Err = ParseIntError;

    fn from_str(s: &str) -> (r: Result<Validated<Option<Velocity>>, ParseIntError>)
        ensures
            reads_velocity(s@, r),
    {
        Self::parse_text(s)
    }
}

impl ParseInput for Validated<Option<Velocity>> {
    type Err = ParseIntError;

    open spec fn reads(s: Seq<char>, r: Result<Validated<Option<Velocity>>, ParseIntError>) -> bool {
        reads_velocity(s, r)
    }

    fn parse_input(s: &str) -> (r: Result<Validated<Option<Velocity>>, ParseIntError>) {
        Self::parse_text(s)
    }
}

impl FromStr for Validated<Option<Numerator>> {
    type Err = NumeratorError;

    fn from_str(s: &str) -> (r: Result<Validated<Option<Numerator>>, NumeratorError>)
        ensures
            reads_numerator(s@, r),
    {
        Self::parse_text(s)
    }
}

impl ParseInput for Validated<Option<Numerator>> {
    type Err = NumeratorError;

    open spec fn reads(s: Seq<char>, r: Result<Validated<Option<Numerator>>, NumeratorError>) -> bool {
        reads_numerator(s, r)
    }

    fn parse_input(s: &str) -> (r: Result<Validated<Option<Numerator>>, NumeratorError>) {
        Self::parse_text(s)
    }
}

impl FromStr for Validated<Option<Denominator>> {
    type Err = DurationDenominatorError;

    fn from_str(s: &str) -> (r: Result<Validated<Option<Denominator>>, DurationDenominatorError>)
        ensures
            reads_denominator(s@, r),
    {
        Self::parse_text(s)
    }
}

impl ParseInput for Validated<Option<Denominator>> {
    type Err = DurationDenominatorError;

    open spec fn reads(s: Seq<char>, r: Result<Validated<Option<Denominator>>, DurationDenominatorError>) -> bool {
        reads_denominator(s, r)
    }

    fn parse_input(s: &str) -> (r: Result<Validated<Option<Denominator>>, DurationDenominatorError>) {
        Self::parse_text(s)
    }
}

/// A value that text input can be read as.
pub trait ParseInput: Sized {
    type Err;

    /// Whether `r` is what the text `s` reads as.
    spec fn reads(s: Seq<char>, r: Result<Self, Self::Err>) -> bool;

    fn parse_input(s: &str) -> (r: Result<Self, Self::Err>)
        ensures
            Self::reads(s@, r),
    ;
}

/// Reads a value of text input.
pub fn from_str<T, E>(s: &str) -> (r: Result<Validated<T>, E>)
    where Validated<T>: ParseInput<Err = E>,
    ensures
        Validated::<T>::reads(s@, r),
{
    Validated::<T>::parse_input(s)
}

/// Text input with what it reads as.
#[derive(Debug)]
pub struct TextInput<T, E> {
    validated: Result<Validated<T>, E>,
    buffer: String,
}

impl<T, E> TextInput<T, E> where Validated<T>: ParseInput<Err = E> {
    pub fn from_string(s: String) -> (r: TextInput<T, E>)
        ensures
            r.input_spec() == s@,
            r.wf(),
    {
        let validated: Result<Validated<T>, E> = from_str(s.as_str());
        TextInput { validated, buffer: s }
    }

    pub closed spec fn input_spec(&self) -> Seq<char> {
        self.buffer@
    }

    /// What is held as read is what the text held reads as.
    pub closed spec fn wf(&self) -> bool {
        Validated::<T>::reads(self.buffer@, self.validated)
    }

    /// The text held.
    pub closed spec fn buffer_spec(&self) -> String {
        self.buffer
    }

    /// Hands the text to `mutator` once, to change in place, then reads the
    /// text as `mutator` left it; gives what `mutator` returned.
    pub fn mutate<R, M>(&mut self, mutator: M) -> (r: R)
        where M: FnOnce(&mut String) -> R,
        requires
            forall|m: &mut String| *m == old(self).buffer_spec() ==> call_requires(mutator, (m,)),
        ensures
            exists|m: &mut String| {
                &&& *m == old(self).buffer_spec()
                &&& *final(m) == final(self).buffer_spec()
                &&& call_ensures(mutator, (m,), r)
            },
            final(self).input_spec() == final(self).buffer_spec()@,
            final(self).wf(),
    {
        let r = mutator(&mut self.buffer);
        self.validated = from_str(self.buffer.as_str());
        r
    }

    /// The text.
    pub fn input(&self) -> (r: &str)
        ensures
            r@ == self.input_spec(),
    {
        self.buffer.as_str()
    }

    /// What the text reads as.
    pub fn validate(&self) -> (r: &Result<Validated<T>, E>)
        requires
            self.wf(),
        ensures
            Validated::<T>::reads(self.input_spec(), *r),
    {
        &self.validated
    }
}

} // verus!
