use json_parser::{JsonParser, JsonValue, LookupOutcome};

fn parse(text: &str) -> JsonValue {
    let mut parser = JsonParser::new(text);
    parser.parse().unwrap()
}

#[test]
fn path_and_one_based_index_resolve() {
    let v = parse("{\"name\":\"Alice\",\"grades\":[90,85,77]}");
    let key = "grades".to_string();
    match v.lookup(Some(&key), Some(2)) {
        LookupOutcome::Found(item) => {
            assert!(item.equals(&JsonValue::Number("85".to_string())));
        }
        _ => panic!("expected the second grade"),
    }
}

#[test]
fn dotted_path_resolves_nested_value() {
    let v = parse("{\"a\":{\"b\":\"x\"}}");
    let found = v.get("a.b").unwrap();
    assert!(found.equals(&JsonValue::String("x".to_string())));
}

#[test]
fn missing_path_is_a_miss_not_a_crash() {
    let v = parse("{\"a\":1}");
    assert!(v.get("missing.key").is_none());
    let key = "missing.key".to_string();
    assert!(matches!(v.lookup(Some(&key), None), LookupOutcome::KeyNotFound));
}

#[test]
fn path_through_a_leaf_is_a_miss() {
    let v = parse("{\"a\":1}");
    assert!(v.get("a.b").is_none());
}

#[test]
fn every_top_level_key_resolves_to_its_value() {
    let v = parse("{\"a\":1,\"b\":true,\"c\":\"x\"}");
    assert!(v.get("a").unwrap().equals(&JsonValue::Number("1".to_string())));
    assert!(v.get("b").unwrap().equals(&JsonValue::Boolean(true)));
    assert!(v.get("c").unwrap().equals(&JsonValue::String("x".to_string())));
}

#[test]
fn first_matching_key_wins() {
    let v = parse("{\"k\":1,\"k\":2}");
    let found = v.get("k").unwrap();
    assert!(found.equals(&JsonValue::Number("1".to_string())));
}

#[test]
fn get_index_is_some_exactly_in_bounds() {
    let v = parse("[10,20,30]");
    for i in 0..3usize {
        assert!(v.get_index(i).is_some());
    }
    assert!(v.get_index(3).is_none());
    assert!(v.get_index(100).is_none());
    let scalar = parse("5");
    assert!(scalar.get_index(0).is_none());
}

#[test]
fn get_index_returns_the_element() {
    let v = parse("[10,20,30]");
    assert!(v.get_index(0).unwrap().equals(&JsonValue::Number("10".to_string())));
    assert!(v.get_index(2).unwrap().equals(&JsonValue::Number("30".to_string())));
}

#[test]
fn lookup_without_key_gives_whole_tree() {
    let v = parse("{\"a\":1}");
    match v.lookup(None, None) {
        LookupOutcome::Found(whole) => assert!(whole.equals(&v)),
        _ => panic!("expected the whole tree"),
    }
}

#[test]
fn index_misses_are_reported() {
    let v = parse("{\"grades\":[90,85,77]}");
    let key = "grades".to_string();
    assert!(matches!(v.lookup(Some(&key), Some(4)), LookupOutcome::IndexNotFound));
    assert!(matches!(v.lookup(Some(&key), Some(0)), LookupOutcome::IndexNotFound));
    let name = "name".to_string();
    assert!(matches!(v.lookup(Some(&name), Some(1)), LookupOutcome::KeyNotFound));
    let v2 = parse("{\"a\":1}");
    let a = "a".to_string();
    assert!(matches!(v2.lookup(Some(&a), Some(1)), LookupOutcome::IndexNotFound));
}

#[test]
fn lookup_index_is_one_based() {
    let v = parse("{\"grades\":[90,85,77]}");
    let key = "grades".to_string();
    match v.lookup(Some(&key), Some(1)) {
        LookupOutcome::Found(item) => {
            assert!(item.equals(&JsonValue::Number("90".to_string())));
        }
        _ => panic!("index 1 must give the first element"),
    }
}
