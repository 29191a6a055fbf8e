use unrot_core::{parse_choice, ParseError, ParsedInput};

#[test]
fn commands_are_understood() {
    assert_eq!(parse_choice("s", 2), Ok(ParsedInput::Skip));
    assert_eq!(parse_choice("r", 2), Ok(ParsedInput::Remove));
    assert_eq!(parse_choice(" c\n", 2), Ok(ParsedInput::CustomPath));
}

#[test]
fn numbers_count_from_one() {
    assert_eq!(parse_choice("1", 2), Ok(ParsedInput::SelectCandidate(0)));
    assert_eq!(parse_choice("2\n", 2), Ok(ParsedInput::SelectCandidate(1)));
    assert_eq!(parse_choice("012", 12), Ok(ParsedInput::SelectCandidate(11)));
}

#[test]
fn out_of_range_numbers_are_refused() {
    assert_eq!(parse_choice("0", 2), Err(ParseError::OutOfRange));
    assert_eq!(parse_choice("3", 2), Err(ParseError::OutOfRange));
    assert_eq!(parse_choice("1", 0), Err(ParseError::OutOfRange));
    assert_eq!(
        parse_choice("99999999999999999999999999", usize::MAX),
        Err(ParseError::OutOfRange)
    );
    assert_eq!(
        parse_choice("18446744073709551615", usize::MAX),
        Ok(ParsedInput::SelectCandidate(usize::MAX - 1))
    );
}

#[test]
fn other_answers_are_refused() {
    assert_eq!(parse_choice("", 2), Err(ParseError::Empty));
    assert_eq!(parse_choice("  \t", 2), Err(ParseError::Empty));
    assert_eq!(parse_choice("x", 2), Err(ParseError::Unrecognized));
    assert_eq!(parse_choice("1a", 2), Err(ParseError::Unrecognized));
    assert_eq!(parse_choice("S", 2), Err(ParseError::Unrecognized));
    assert_eq!(parse_choice("skip", 2), Err(ParseError::Unrecognized));
    assert_eq!(parse_choice("-1", 2), Err(ParseError::Unrecognized));
}
