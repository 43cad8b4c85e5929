use json_parser::{JsonParser, JsonValue, ParseError};

fn parse(text: &str) -> Result<JsonValue, ParseError> {
    let mut parser = JsonParser::new(text);
    parser.parse()
}

#[test]
fn empty_object_parses_to_empty_container() {
    let v = parse("{}").unwrap();
    match v {
        JsonValue::Object(pairs) => assert!(pairs.is_empty()),
        _ => panic!("expected an object"),
    }
}

#[test]
fn empty_array_parses_to_empty_container() {
    let v = parse("[]").unwrap();
    match v {
        JsonValue::Array(items) => assert!(items.is_empty()),
        _ => panic!("expected an array"),
    }
}

#[test]
fn truncated_object_reports_comma_or_brace() {
    let e = parse("{\"x\":1").unwrap_err();
    assert_eq!(e, ParseError::ExpectedCommaOrBrace);
    assert_eq!(e.message(), "Expected ',' or '}'");
}

#[test]
fn simple_document_parses() {
    let v = parse("{\"name\":\"Alice\",\"grades\":[90,85,77]}").unwrap();
    match &v {
        JsonValue::Object(pairs) => {
            assert_eq!(pairs.len(), 2);
            assert_eq!(pairs[0].0, "name");
            assert_eq!(pairs[1].0, "grades");
        }
        _ => panic!("expected an object"),
    }
}

#[test]
fn scalars_parse() {
    assert!(parse("true").unwrap().equals(&JsonValue::Boolean(true)));
    assert!(parse("false").unwrap().equals(&JsonValue::Boolean(false)));
    assert!(parse("null").unwrap().equals(&JsonValue::Null));
    assert!(parse("42").unwrap().equals(&JsonValue::Number("42".to_string())));
    assert!(parse("-3.5").unwrap().equals(&JsonValue::Number("-3.5".to_string())));
    assert!(parse("\"hi\"").unwrap().equals(&JsonValue::String("hi".to_string())));
}

#[test]
fn whitespace_between_tokens_is_skipped() {
    let v = parse(" {\n  \"a\" :\t1 ,\n \"b\" : [ 1 , 2 ] }").unwrap();
    let a = v.get("a").unwrap();
    assert!(a.equals(&JsonValue::Number("1".to_string())));
}

#[test]
fn unterminated_string_is_fatal() {
    assert_eq!(parse("\"abc").unwrap_err(), ParseError::UnterminatedString);
    assert_eq!(parse("{\"a").unwrap_err(), ParseError::UnterminatedString);
}

#[test]
fn malformed_number_is_fatal() {
    assert_eq!(parse("1-2").unwrap_err(), ParseError::InvalidNumber);
    assert_eq!(parse("1.2.3").unwrap_err(), ParseError::InvalidNumber);
    assert_eq!(parse("-").unwrap_err(), ParseError::InvalidNumber);
}

#[test]
fn exponent_notation_is_rejected() {
    // the numeric grammar stops before the `e`, and the array then lacks
    // its separator
    assert_eq!(parse("[1e10]").unwrap_err(), ParseError::ExpectedCommaOrBracket);
}

#[test]
fn bad_literals_are_fatal() {
    assert_eq!(parse("tru").unwrap_err(), ParseError::InvalidBoolean);
    assert_eq!(parse("fals").unwrap_err(), ParseError::InvalidBoolean);
    assert_eq!(parse("nul").unwrap_err(), ParseError::InvalidNull);
}

#[test]
fn stray_leading_character_is_invalid() {
    assert_eq!(parse("@").unwrap_err(), ParseError::InvalidJson);
    assert_eq!(parse("").unwrap_err(), ParseError::InvalidJson);
    assert_eq!(parse("   ").unwrap_err(), ParseError::InvalidJson);
}

#[test]
fn object_needs_string_keys_and_colons() {
    assert_eq!(parse("{1:2}").unwrap_err(), ParseError::ExpectedStringKey);
    assert_eq!(parse("{\"a\" 1}").unwrap_err(), ParseError::ExpectedColon);
}

#[test]
fn trailing_commas_are_rejected() {
    assert_eq!(parse("{\"a\":1,}").unwrap_err(), ParseError::ExpectedStringKey);
    assert_eq!(parse("[1,]").unwrap_err(), ParseError::InvalidJson);
}

#[test]
fn escapes_are_not_interpreted() {
    // a backslash before a quote still ends the string
    let v = parse("\"a\\\"").unwrap();
    assert!(v.equals(&JsonValue::String("a\\".to_string())));
}

#[test]
fn cursor_moves_one_character_at_a_time() {
    let mut parser = JsonParser::new("a\u{e9}z");
    assert_eq!(parser.peek_char(), Some('a'));
    assert_eq!(parser.consume_char(), Some('a'));
    assert_eq!(parser.consume_char(), Some('\u{e9}'));
    assert_eq!(parser.peek_char(), Some('z'));
    assert_eq!(parser.consume_char(), Some('z'));
    assert_eq!(parser.consume_char(), None);
}

#[test]
fn skip_whitespace_stops_at_tokens() {
    let mut parser = JsonParser::new("  \t\n 7");
    parser.skip_whitespace();
    assert_eq!(parser.peek_char(), Some('7'));
    assert_eq!(parser.position, 5);
}

#[test]
fn sub_parsers_work_standalone() {
    let mut p = JsonParser::new("{\"a\":1}");
    let v = p.parse_object().unwrap();
    assert!(v.get("a").is_some());
    let mut p2 = JsonParser::new("true");
    assert!(p2.parse_boolean().unwrap().equals(&JsonValue::Boolean(true)));
    let mut p3 = JsonParser::new("null");
    assert!(p3.parse_null().unwrap().equals(&JsonValue::Null));
    let mut p4 = JsonParser::new("\"s\"");
    assert!(p4.parse_string().unwrap().equals(&JsonValue::String("s".to_string())));
    let mut p5 = JsonParser::new("3.5");
    assert!(p5.parse_number().unwrap().equals(&JsonValue::Number("3.5".to_string())));
    let mut p6 = JsonParser::new("[1]");
    let arr = p6.parse_array().unwrap();
    assert!(arr.get_index(0).is_some());
}

#[test]
fn trailing_text_after_value_is_ignored_by_parse() {
    // parse reads one value at the cursor and leaves the rest alone
    let mut parser = JsonParser::new("true!");
    assert!(parser.parse().unwrap().equals(&JsonValue::Boolean(true)));
    assert_eq!(parser.peek_char(), Some('!'));
}
