use ethabi::Error;
use ethabi::ParamType;
use ethabi::Reader;

#[test]
fn test_unknown_name_is_an_error() {
    assert_eq!(Reader::read("foo123"), Err(Error::InvalidName("foo123".to_string())));
    assert_eq!(Reader::read(""), Err(Error::InvalidName("".to_string())));
    assert_eq!(Reader::read("Address"), Err(Error::InvalidName("Address".to_string())));
}

#[test]
fn test_unterminated_tuple_is_an_error() {
    assert_eq!(Reader::read("tuple("), Err(Error::InvalidName("tuple(".to_string())));
    assert_eq!(Reader::read("tuple(bool"), Err(Error::InvalidName("tuple(bool".to_string())));
    assert_eq!(
        Reader::read("tuple(tuple(bool)"),
        Err(Error::InvalidName("tuple(tuple(bool)".to_string()))
    );
}

#[test]
fn test_bare_parenthesis_is_an_error() {
    assert_eq!(Reader::read(")"), Err(Error::InvalidName(")".to_string())));
    assert_eq!(Reader::read("(bool)"), Err(Error::InvalidName("(bool)".to_string())));
}

#[test]
fn test_text_after_closing_parenthesis_is_an_error() {
    assert_eq!(Reader::read("tuple(bool))"), Err(Error::InvalidName("tuple(bool))".to_string())));
}

#[test]
fn test_empty_tuple_member_is_an_error() {
    assert_eq!(Reader::read("tuple(address,)"), Err(Error::InvalidName("".to_string())));
    assert_eq!(Reader::read("tuple(,address)"), Err(Error::InvalidName("".to_string())));
}

#[test]
fn test_non_numeric_length_is_an_error() {
    assert_eq!(Reader::read("bool[x]"), Err(Error::InvalidNumber("x".to_string())));
    assert_eq!(Reader::read("bool[1x]"), Err(Error::InvalidNumber("1x".to_string())));
    assert_eq!(Reader::read("bool]"), Err(Error::InvalidNumber("bool".to_string())));
}

#[test]
fn test_non_numeric_width_is_an_error() {
    assert_eq!(Reader::read("int3x"), Err(Error::InvalidNumber("3x".to_string())));
    assert_eq!(Reader::read("uintx"), Err(Error::InvalidNumber("x".to_string())));
    assert_eq!(Reader::read("bytes-2"), Err(Error::InvalidNumber("-2".to_string())));
}

#[test]
fn test_width_overflow_is_an_error() {
    assert_eq!(
        Reader::read("bytes999999999999999999999999999999"),
        Err(Error::InvalidNumber("999999999999999999999999999999".to_string()))
    );
}

#[test]
fn test_bracket_without_element_is_an_error() {
    assert_eq!(Reader::read("]"), Err(Error::InvalidName("]".to_string())));
    assert_eq!(Reader::read("5]"), Err(Error::InvalidName("5]".to_string())));
    assert_eq!(Reader::read("[]"), Err(Error::InvalidName("".to_string())));
}

#[test]
fn test_nesting_limit() {
    let mut deep = String::from("bool");
    for _ in 0..3000 {
        deep.push_str("[]");
    }
    assert_eq!(Reader::read(&deep), Err(Error::NestingTooDeep));

    let mut fine = String::from("bool");
    for _ in 0..500 {
        fine.push_str("[]");
    }
    let mut expected = ParamType::Bool;
    for _ in 0..500 {
        expected = ParamType::Array(Box::new(expected));
    }
    assert_eq!(Reader::read(&fine).unwrap(), expected);
}

#[test]
fn test_reading_twice_gives_equal_results() {
    assert_eq!(Reader::read("tuple(bool[3],bytes)"), Reader::read("tuple(bool[3],bytes)"));
    assert_eq!(Reader::read("bool[x]"), Reader::read("bool[x]"));
    assert_eq!(Reader::read("foo123"), Reader::read("foo123"));
}

#[test]
fn test_describe() {
    assert_eq!(
        Reader::read("foo123").unwrap_err().describe(),
        "invalid name: foo123".to_string()
    );
    assert_eq!(
        Reader::read("bool[x]").unwrap_err().describe(),
        "invalid number: x".to_string()
    );
}
