use json_parser::{JsonParser, JsonValue};

fn parse(text: &str) -> JsonValue {
    let mut parser = JsonParser::new(text);
    parser.parse().unwrap()
}

#[test]
fn search_finds_a_string_value() {
    let v = parse("{\"city\":\"Paris\"}");
    let target = JsonValue::String("paris".to_string());
    let (count, keys, indexes) = v.get_all_occurrences(&target);
    assert_eq!(count, 1);
    assert_eq!(keys, vec!["city".to_string()]);
    assert_eq!(indexes, vec![None]);
}

#[test]
fn search_is_case_insensitive_both_ways() {
    let v = parse("{\"a\":\"paris\",\"b\":\"PARIS\",\"c\":\"PaRiS\"}");
    let target = JsonValue::String("Paris".to_string());
    let (count, keys, _) = v.get_all_occurrences(&target);
    assert_eq!(count, 3);
    assert_eq!(keys, vec!["a".to_string(), "b".to_string(), "c".to_string()]);
}

#[test]
fn search_never_matches_keys() {
    // the key equals the target, no value does: nothing is found
    let v = parse("{\"paris\":1}");
    let target = JsonValue::String("paris".to_string());
    let (count, keys, indexes) = v.get_all_occurrences(&target);
    assert_eq!(count, 0);
    assert!(keys.is_empty());
    assert!(indexes.is_empty());
}

#[test]
fn nested_matches_report_dotted_paths() {
    let v = parse("{\"a\":{\"b\":\"x\"},\"c\":\"x\"}");
    let target = JsonValue::String("x".to_string());
    let (count, keys, indexes) = v.get_all_occurrences(&target);
    assert_eq!(count, 2);
    assert_eq!(keys, vec!["a.b".to_string(), "c".to_string()]);
    assert_eq!(indexes, vec![None, None]);
}

#[test]
fn array_matches_share_the_path_and_carry_indexes() {
    let v = parse("{\"tags\":[\"x\",\"y\",\"x\"]}");
    let target = JsonValue::String("X".to_string());
    let (count, keys, indexes) = v.get_all_occurrences(&target);
    assert_eq!(count, 2);
    assert_eq!(keys, vec!["tags".to_string(), "tags".to_string()]);
    assert_eq!(indexes, vec![Some(0), Some(2)]);
}

#[test]
fn search_does_not_match_numbers_against_strings() {
    let v = parse("{\"n\":1,\"s\":\"1\"}");
    let target = JsonValue::String("1".to_string());
    let (count, keys, _) = v.get_all_occurrences(&target);
    assert_eq!(count, 1);
    assert_eq!(keys, vec!["s".to_string()]);
}

#[test]
fn to_lowercase_lowers_values_not_keys() {
    let v = parse("{\"KEY\":\"VALUE\"}");
    let low = v.to_lowercase();
    match &low {
        JsonValue::Object(pairs) => {
            assert_eq!(pairs[0].0, "KEY");
            assert!(pairs[0].1.equals(&JsonValue::String("value".to_string())));
        }
        _ => panic!("expected an object"),
    }
}

#[test]
fn to_lowercase_keeps_other_leaves() {
    let v = parse("{\"a\":[1,true,null]}");
    let low = v.to_lowercase();
    assert!(low.equals(&v));
}
