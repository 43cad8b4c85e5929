use json_parser::{ColorScheme, JsonParser, JsonValue};

fn parse(text: &str) -> JsonValue {
    let mut parser = JsonParser::new(text);
    parser.parse().unwrap()
}

fn round_trips(text: &str) {
    let v = parse(text);
    let rendered = v.render(&ColorScheme::plain());
    let back = parse(&rendered);
    assert!(back.equals(&v), "round trip changed the tree for {}", text);
}

#[test]
fn scalars_round_trip() {
    round_trips("1");
    round_trips("-2.5");
    round_trips("true");
    round_trips("false");
    round_trips("null");
    round_trips("\"hello world\"");
}

#[test]
fn containers_round_trip() {
    round_trips("{}");
    round_trips("[]");
    round_trips("{\"a\":1}");
    round_trips("[1,2,3]");
    round_trips("{\"name\":\"Alice\",\"grades\":[90,85,77]}");
    round_trips("{\"a\":{\"b\":{\"c\":[true,null,\"x\"]}}}");
    round_trips("[[1,2],[],{},{\"k\":[3]}]");
}

#[test]
fn rendering_is_read_back_verbatim() {
    // the round trip is exact, token for token, not only up to equality
    let v = parse("{\"a\":[1.50,\"B\"]}");
    let rendered = v.render(&ColorScheme::plain());
    let again = parse(&rendered).render(&ColorScheme::plain());
    assert_eq!(rendered, again);
}
