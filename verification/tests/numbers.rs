use json_parser::{JsonParser, JsonValue, ParseError};

fn parse(text: &str) -> Result<JsonValue, ParseError> {
    let mut parser = JsonParser::new(text);
    parser.parse()
}

fn num(text: &str) -> JsonValue {
    JsonValue::Number(text.to_string())
}

#[test]
fn numbers_equal_when_they_denote_the_same_value() {
    assert!(num("1.0").equals(&num("1")));
    assert!(num("01").equals(&num("1")));
    assert!(num("0.50").equals(&num(".5")));
    assert!(num("-0").equals(&num("0")));
    assert!(num("0.0").equals(&num("0")));
    assert!(num("2.").equals(&num("2")));
}

#[test]
fn numbers_differ_when_their_values_differ() {
    assert!(!num("1").equals(&num("2")));
    assert!(!num("1").equals(&num("-1")));
    assert!(!num("0.5").equals(&num("0.05")));
    assert!(!num("10").equals(&num("1")));
}

#[test]
fn parsed_numbers_keep_their_literal() {
    let v = parse("1.50").unwrap();
    assert!(v.equals(&num("1.5")));
    match v {
        JsonValue::Number(t) => assert_eq!(t, "1.50"),
        _ => panic!("expected a number"),
    }
}

#[test]
fn number_grammar_accepts_signs_and_one_dot() {
    assert!(parse("-12.75").is_ok());
    assert!(parse(".5").is_err()); // a bare dot cannot start a value
    assert!(parse("-.5").unwrap().equals(&num("-0.5")));
    assert!(parse("--1").is_err());
    assert!(parse("5.").unwrap().equals(&num("5")));
}

#[test]
fn equality_mixes_types_strictly() {
    assert!(!num("1").equals(&JsonValue::String("1".to_string())));
    assert!(!num("1").equals(&JsonValue::Boolean(true)));
    assert!(!JsonValue::Null.equals(&num("0")));
}
