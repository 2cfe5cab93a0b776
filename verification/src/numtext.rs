use vstd::prelude::*;
use std::num::ParseIntError;
use std::str::FromStr;

verus! {

#[verifier::external_type_specification]
#[verifier::external_body]
pub struct ExParseIntError(std::num::ParseIntError);

/// Whether a character is one of the ASCII digits 0 ..= 9.
pub open spec fn is_ascii_digit(c: char) -> bool {
    48 <= c as u32 <= 57
}

/// The value of a run of ASCII digits read as a decimal number.
pub open spec fn digits_value(s: Seq<char>) -> int
    decreases s.len(),
{
    if s.len() == 0 {
        0
    } else {
        digits_value(s.drop_last()) * 10 + (s.last() as u32 - 48)
    }
}

/// Whether a text is a non-empty run of ASCII digits.
pub open spec fn all_digits(s: Seq<char>) -> bool {
    s.len() > 0 && forall|i: int| 0 <= i < s.len() ==> is_ascii_digit(#[trigger] s[i])
}

/// The integer that an unsigned integer text denotes: an optional `+` and
/// then at least one ASCII digit. `None` for any other text.
pub open spec fn unsigned_text(s: Seq<char>) -> Option<int> {
    let body = if s.len() > 0 && s[0] == '+' { s.skip(1) } else { s };
    if all_digits(body) {
        Some(digits_value(body))
    } else {
        None
    }
}

/// The integer that a signed integer text denotes: an optional `+` or `-`
/// and then at least one ASCII digit. `None` for any other text.
pub open spec fn signed_text(s: Seq<char>) -> Option<int> {
    if s.len() > 0 && s[0] == '-' {
        if all_digits(s.skip(1)) {
            Some(-digits_value(s.skip(1)))
        } else {
            None
        }
    } else {
        unsigned_text(s)
    }
}

/// Reads an unsigned 8-bit integer with `u8::from_str`. The standard library
/// documents the accepted text as an optional `+` followed by ASCII digits,
/// and an error when the value does not fit; the error's kind is not stated.
#[verifier::external_body]
pub fn parse_u8(s: &str) -> (r: Result<u8, ParseIntError>)
    ensures
        r is Ok <==> (unsigned_text(s@) matches Some(v) && v <= u8::MAX),
        r matches Ok(v) ==> unsigned_text(s@) == Some(v as int),
{
    u8::from_str(s)
}

/// Reads an unsigned 16-bit integer with `u16::from_str` (see `parse_u8`).
#[verifier::external_body]
pub fn parse_u16(s: &str) -> (r: Result<u16, ParseIntError>)
    ensures
        r is Ok <==> (unsigned_text(s@) matches Some(v) && v <= u16::MAX),
        r matches Ok(v) ==> unsigned_text(s@) == Some(v as int),
{
    u16::from_str(s)
}

/// Reads an unsigned 32-bit integer with `u32::from_str` (see `parse_u8`).
#[verifier::external_body]
pub fn parse_u32(s: &str) -> (r: Result<u32, ParseIntError>)
    ensures
        r is Ok <==> (unsigned_text(s@) matches Some(v) && v <= u32::MAX),
        r matches Ok(v) ==> unsigned_text(s@) == Some(v as int),
{
    u32::from_str(s)
}

/// Reads a signed 16-bit integer with `i16::from_str`. The standard library
/// documents the accepted text as an optional `+` or `-` followed by ASCII
/// digits, and an error when the value does not fit.
#[verifier::external_body]
pub fn parse_i16(s: &str) -> (r: Result<i16, ParseIntError>)
    ensures
        r is Ok <==> (signed_text(s@) matches Some(v) && i16::MIN <= v <= i16::MAX),
        r matches Ok(v) ==> signed_text(s@) == Some(v as int),
{
    i16::from_str(s)
}

/// The decimal digits of a number, most significant first, with no leading
/// zero ("0" for zero).
pub open spec fn decimal_digits(v: nat) -> Seq<char>
    decreases v,
{
    if v < 10 {
        seq![(v + 48) as char]
    } else {
        decimal_digits(v / 10).push(((v % 10) + 48) as char)
    }
}

/// The decimal digits of a number are a digit run that reads as the number,
/// and the first of them is no zero unless the number is.
pub proof fn lemma_decimal_digits(v: nat)
    ensures
        all_digits(decimal_digits(v)),
        digits_value(decimal_digits(v)) == v,
        v > 0 ==> decimal_digits(v)[0] != '0',
    decreases v,
{
    let s = decimal_digits(v);
    if v < 10 {
        assert(s.drop_last() =~= Seq::<char>::empty());
        assert(s.last() as u32 == v + 48);
        assert(digits_value(s.drop_last()) == 0);
        assert(digits_value(s) == digits_value(s.drop_last()) * 10 + (s.last() as u32 - 48));
    } else {
        lemma_decimal_digits(v / 10);
        let p = decimal_digits(v / 10);
        assert(s.drop_last() =~= p);
        assert(s.last() as u32 == v % 10 + 48);
        assert(v == (v / 10) * 10 + v % 10);
        assert(digits_value(s) == digits_value(p) * 10 + (s.last() as u32 - 48));
        assert(s[0] == p[0]);
        assert forall|i: int| 0 <= i < s.len() implies is_ascii_digit(#[trigger] s[i]) by {
            if i < p.len() {
                assert(s[i] == p[i]);
            }
        }
    }
}

/// The decimal text of a number reads back, as an unsigned number text, as
/// that number.
pub proof fn law_decimal_text_reads_back(v: nat)
    ensures
        unsigned_text(decimal_digits(v)) == Some(v as int),
{
    lemma_decimal_digits(v);
    assert(decimal_digits(v)[0] != '+');
}

/// The decimal text of a number, made with `u64::to_string`: its decimal
/// digits with no leading zero.
#[verifier::external_body]
pub fn decimal_text(v: u64) -> (r: String)
    ensures
        r@ == decimal_digits(v as nat),
{
    v.to_string()
}

} // verus!
