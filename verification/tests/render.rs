use json_parser::{ColorScheme, JsonParser, JsonValue};

fn parse(text: &str) -> JsonValue {
    let mut parser = JsonParser::new(text);
    parser.parse().unwrap()
}

#[test]
fn plain_render_indents_four_spaces() {
    let v = parse("{\"a\":1,\"b\":\"x\"}");
    let text = v.render(&ColorScheme::plain());
    assert_eq!(text, "{\n    \"a\": 1,\n    \"b\": \"x\"\n}");
}

#[test]
fn plain_render_nests_deeper_levels() {
    let v = parse("{\"a\":{\"b\":[1,2]}}");
    let text = v.render(&ColorScheme::plain());
    assert_eq!(
        text,
        "{\n    \"a\": {\n        \"b\": [\n            1,\n            2\n        ]\n    }\n}"
    );
}

#[test]
fn empty_containers_keep_the_bracket_structure() {
    assert_eq!(parse("{}").render(&ColorScheme::plain()), "{\n\n}");
    assert_eq!(parse("[]").render(&ColorScheme::plain()), "[\n\n]");
}

#[test]
fn leaves_render_their_token_text() {
    let plain = ColorScheme::plain();
    assert_eq!(parse("true").render(&plain), "true");
    assert_eq!(parse("false").render(&plain), "false");
    assert_eq!(parse("null").render(&plain), "null");
    assert_eq!(parse("42").render(&plain), "42");
    assert_eq!(parse("\"hi\"").render(&plain), "\"hi\"");
}

#[test]
fn ansi_render_distinguishes_token_classes() {
    let v = parse("{\"k\":[1,true,null,\"s\"]}");
    let text = v.render(&ColorScheme::ansi());
    assert!(text.contains("\u{1b}[32m")); // key
    assert!(text.contains("\u{1b}[33m")); // string
    assert!(text.contains("\u{1b}[34m")); // number
    assert!(text.contains("\u{1b}[35m")); // boolean
    assert!(text.contains("\u{1b}[31m")); // null
    assert!(text.contains("\u{1b}[36m")); // bracket
    assert!(text.contains("\u{1b}[0m")); // reset
}

#[test]
fn ansi_render_of_scalar_wraps_in_color_and_reset() {
    let v = parse("7");
    assert_eq!(v.render(&ColorScheme::ansi()), "\u{1b}[34m7\u{1b}[0m");
}
