use std::num::ParseIntError;

use klavier_core::bar::VarIndex;
use klavier_core::duration::Denominator;
use klavier_core::grid::Grid;
use klavier_core::location::{parse_location, Location};
use klavier_core::project::{LocationError, ProjectCmdErr};
use klavier_core::rhythm::{Numerator, NumeratorError};
use klavier_core::solfa::Solfa;
use klavier_core::text_input::{from_str, DurationDenominatorError, TextInput, Validated};
use klavier_core::velocity::Velocity;

#[test]
fn location_text() {
    assert_eq!(Location::new(12, 480).to_text(), "12:480");
    assert_eq!(Location::new(0, 0).to_text(), "0:0");
}

#[test]
fn location_text_reads_back() {
    let loc = Location::new(1234, 5);
    assert_eq!(parse_location(&loc.to_text()), Some(loc));
}

#[test]
fn number_texts() {
    assert_eq!(Grid::from_u32(240).unwrap().to_text(), "240");
    assert_eq!(Denominator::from_value(3).unwrap().to_text(), "3");
    assert_eq!(Velocity::new(100).to_text(), "100");
    assert_eq!(Velocity::new(0).to_text(), "0");
    assert_eq!(Numerator::from_value(7).unwrap().to_text(), "7");
}

#[test]
fn numerator_text_reads_back() {
    let n = Numerator::from_value(12).unwrap();
    assert_eq!(Numerator::parse(&n.to_text()), Ok(n));
}

#[test]
fn solfa_text() {
    assert_eq!(Solfa::C.to_text(), "C");
    assert_eq!(Solfa::B.to_text(), "B");
}

#[test]
fn error_messages() {
    assert_eq!(LocationError::Overflow.message(), "Location overflow");
    assert_eq!(ProjectCmdErr::NoOp.message(), "No Operation");
}

#[test]
fn var_index_from_number() {
    assert_eq!(VarIndex::from(1), VarIndex::VI1);
    assert_eq!(VarIndex::from(4), VarIndex::VI4);
}

#[test]
fn text_input_reads_number() {
    let input: TextInput<Option<i16>, ParseIntError> = TextInput::from_string("-12".to_owned());
    assert_eq!(input.input(), "-12");
    assert!(matches!(input.validate(), Ok(Validated(Some(-12)))));
}

#[test]
fn text_input_empty_is_none() {
    let input: TextInput<Option<i16>, ParseIntError> = TextInput::from_string(String::new());
    assert!(matches!(input.validate(), Ok(Validated(None))));
}

#[test]
fn text_input_mutate_reads_again() {
    let mut input: TextInput<Option<i16>, ParseIntError> = TextInput::from_string("1".to_owned());
    let r = input.mutate(|s| {
        s.push_str("x");
        7
    });
    assert_eq!(r, 7);
    assert_eq!(input.input(), "1x");
    assert!(input.validate().is_err());
    input.mutate(|s| *s = "42".to_owned());
    assert!(matches!(input.validate(), Ok(Validated(Some(42)))));
}

#[test]
fn text_input_velocity_above_range() {
    let r: Result<Validated<Option<Velocity>>, ParseIntError> = from_str("200");
    assert!(matches!(r, Ok(Validated(Some(v))) if v.as_u8() == 127));
    let r: Result<Validated<Option<Velocity>>, ParseIntError> = from_str("256");
    assert!(r.is_err());
}

#[test]
fn text_input_numerator() {
    let r: Result<Validated<Option<Numerator>>, NumeratorError> = from_str("3");
    assert!(matches!(r, Ok(Validated(Some(n))) if n == Numerator::from_value(3).unwrap()));
    let r: Result<Validated<Option<Numerator>>, NumeratorError> = from_str("0");
    assert!(matches!(r, Err(NumeratorError::InvalidValue(0))));
    let r: Result<Validated<Option<Numerator>>, NumeratorError> = from_str("x");
    assert!(matches!(r, Err(NumeratorError::CannotParse(_))));
}

#[test]
fn text_input_denominator() {
    let r: Result<Validated<Option<Denominator>>, DurationDenominatorError> = from_str("3");
    assert!(matches!(r, Ok(Validated(Some(d))) if d.value() == 3));
    let r: Result<Validated<Option<Denominator>>, DurationDenominatorError> = from_str("1");
    assert!(matches!(r, Err(DurationDenominatorError::InvalidValue)));
    let r: Result<Validated<Option<Denominator>>, DurationDenominatorError> = from_str("-1");
    assert!(matches!(r, Err(DurationDenominatorError::ParseIntError)));
}

#[test]
fn numerator_from_str() {
    let n: Numerator = "4".parse().unwrap();
    assert_eq!(n, Numerator::from_value(4).unwrap());
    assert_eq!("100".parse::<Numerator>(), Err(NumeratorError::InvalidValue(100)));
    assert!(matches!("x".parse::<Numerator>(), Err(NumeratorError::CannotParse(_))));
}

#[test]
fn validated_from_str() {
    let r: Result<Validated<Option<i16>>, ParseIntError> = "-7".parse();
    assert!(matches!(r, Ok(Validated(Some(-7)))));
    let r: Result<Validated<Option<Velocity>>, ParseIntError> = "".parse();
    assert!(matches!(r, Ok(Validated(None))));
    let r: Result<Validated<Option<Denominator>>, DurationDenominatorError> = "1".parse();
    assert!(matches!(r, Err(DurationDenominatorError::InvalidValue)));
    let r: Result<Validated<Option<Numerator>>, NumeratorError> = "12".parse();
    assert!(matches!(r, Ok(Validated(Some(n))) if n == Numerator::from_value(12).unwrap()));
}
