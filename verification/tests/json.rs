use deft::json::Json;

fn number(text: &str) -> Option<i64> {
    text.parse::<f64>().ok().map(|v| v as i64)
}

fn parse(input: &str) -> Result<Json, String> {
    Json::parse(input, &number)
}

#[test]
fn renders_scalars() {
    assert_eq!(Json::Null.render(), "null");
    assert_eq!(Json::Bool(true).render(), "true");
    assert_eq!(Json::Bool(false).render(), "false");
    assert_eq!(Json::Number(-42).render(), "-42");
    assert_eq!(Json::str("hi").render(), "\"hi\"");
}

#[test]
fn escapes_special_characters() {
    let rendered = Json::str("line1\nline2\t\"quoted\"\\").render();
    assert_eq!(rendered, "\"line1\\nline2\\t\\\"quoted\\\"\\\\\"");
}

#[test]
fn escapes_control_characters_as_unicode_escapes() {
    let rendered = Json::str("\u{1}bell").render();
    assert_eq!(rendered, "\"\\u0001bell\"");
}

#[test]
fn renders_arrays_and_objects_flat() {
    let value = Json::Object(vec![
        ("name".to_string(), Json::str("widgets")),
        ("count".to_string(), Json::Number(3)),
        ("tags".to_string(), Json::Array(vec![Json::str("a"), Json::str("b")])),
        ("fix".to_string(), Json::Null),
    ]);
    assert_eq!(value.render(), "{\"name\":\"widgets\",\"count\":3,\"tags\":[\"a\",\"b\"],\"fix\":null}");
}

#[test]
fn empty_array_and_object_render_compactly() {
    assert_eq!(Json::Array(Vec::new()).render(), "[]");
    assert_eq!(Json::Object(Vec::new()).render(), "{}");
}

#[test]
fn render_pretty_indents_nested_structures() {
    let value = Json::Object(vec![
        ("name".to_string(), Json::str("widgets")),
        ("tags".to_string(), Json::Array(vec![Json::str("a"), Json::str("b")])),
    ]);
    let rendered = value.render_pretty();
    assert_eq!(rendered, "{\n  \"name\": \"widgets\",\n  \"tags\": [\n    \"a\",\n    \"b\"\n  ]\n}");
}

#[test]
fn parse_round_trips_every_scalar_shape() {
    assert!(matches!(parse("null").unwrap(), Json::Null));
    assert!(matches!(parse("true").unwrap(), Json::Bool(true)));
    assert!(matches!(parse("false").unwrap(), Json::Bool(false)));
    assert_eq!(parse("-42").unwrap().as_i64(), Some(-42));
    assert_eq!(parse("3.0").unwrap().as_i64(), Some(3));
    assert_eq!(parse("\"hi\\nthere\"").unwrap().as_str(), Some("hi\nthere"));
}

#[test]
fn parse_handles_nested_objects_and_arrays_with_whitespace() {
    let input = r#"
        {
          "traceEvents": [
            {"pid": 1, "tid": 0, "ph": "X", "ts": 0, "dur": 150, "name": "Source",
             "args": {"detail": "foo.h"}}
          ]
        }
        "#;
    let doc = parse(input).unwrap();
    let events = doc.get("traceEvents").and_then(Json::as_array).unwrap();
    assert_eq!(events.len(), 1);
    let event = &events[0];
    assert_eq!(event.get("name").and_then(Json::as_str), Some("Source"));
    assert_eq!(event.get("dur").and_then(Json::as_i64), Some(150));
    assert_eq!(event.get("args").and_then(|a| a.get("detail")).and_then(Json::as_str), Some("foo.h"));
}

#[test]
fn parse_rejects_malformed_input_without_panicking() {
    assert!(parse("{").is_err());
    assert!(parse("[1, 2").is_err());
    assert!(parse("not json").is_err());
}

#[test]
fn parse_then_render_is_stable_for_a_representative_document() {
    let original = Json::Object(vec![
        ("a".to_string(), Json::Number(1)),
        ("b".to_string(), Json::Array(vec![Json::str("x"), Json::Null])),
    ]);
    let rendered = original.render();
    let reparsed = parse(&rendered).unwrap();
    assert_eq!(reparsed.render(), rendered);
}

// ---------------------------------------------------------------------------
// Further cases
// ---------------------------------------------------------------------------

#[test]
fn parse_decodes_unicode_escapes_and_replaces_lone_surrogates() {
    assert_eq!(parse("\"\\u00e9\"").unwrap().as_str(), Some("\u{e9}"));
    assert_eq!(parse("\"\\ud83d\\ude00\"").unwrap().as_str(), Some("\u{fffd}\u{fffd}"));
}

#[test]
fn parse_reports_the_first_error() {
    let err = parse("[1, }").unwrap_err();
    assert!(!err.is_empty());
    assert!(parse("").is_err());
    assert!(parse("\"unterminated").is_err());
}

#[test]
fn parse_rejects_a_second_value() {
    assert_eq!(parse("true false").err().as_deref(), Some("trailing characters at byte 5"));
}

#[test]
fn get_returns_the_first_member_with_the_key() {
    let v = Json::Object(vec![("k".to_string(), Json::Number(1)), ("k".to_string(), Json::Number(2))]);
    assert_eq!(v.get("k").and_then(Json::as_i64), Some(1));
    assert!(v.get("missing").is_none());
    assert!(Json::Null.get("k").is_none());
}

#[test]
fn render_pretty_keeps_empty_containers_compact() {
    let v = Json::Object(vec![("a".to_string(), Json::Array(Vec::new())), ("b".to_string(), Json::Object(Vec::new()))]);
    assert_eq!(v.render_pretty(), "{\n  \"a\": [],\n  \"b\": {}\n}");
}

#[test]
fn escapes_every_control_character_below_space() {
    assert_eq!(Json::str("\r\u{8}\u{c}\u{1f}").render(), "\"\\r\\u0008\\u000c\\u001f\"");
}

#[test]
fn nested_values_with_escapes_round_trip() {
    fn exact(text: &str) -> Option<i64> {
        text.parse::<i64>().ok()
    }
    let original = Json::Object(vec![
        ("k\"ey\n".to_string(), Json::Array(vec![Json::Number(i64::MIN), Json::Number(0), Json::Bool(false)])),
        ("e".to_string(), Json::Object(Vec::new())),
        ("s".to_string(), Json::str("tab\tbell\u{7}slash\\")),
        ("n".to_string(), Json::Null),
    ]);
    let rendered = original.render();
    let reparsed = Json::parse(&rendered, &exact).unwrap();
    assert_eq!(reparsed.render(), rendered);
    assert_eq!(reparsed.get("s").and_then(Json::as_str), Some("tab\tbell\u{7}slash\\"));
}

#[test]
fn text_after_the_value_is_rejected() {
    assert_eq!(parse("[1] x").err().as_deref(), Some("trailing characters at byte 4"));
    assert_eq!(parse("{} {}").err().as_deref(), Some("trailing characters at byte 3"));
    assert!(parse("[1] \n\t ").is_ok());
    assert!(parse("  7  ").is_ok());
}

#[test]
fn indented_rendering_parses_back_to_the_same_value() {
    let v = Json::Object(vec![
        ("name".to_string(), Json::str("a \"b\"\n")),
        ("list".to_string(), Json::Array(vec![Json::Number(-3), Json::Null, Json::Array(Vec::new())])),
        ("inner".to_string(), Json::Object(vec![("ok".to_string(), Json::Bool(true))])),
        ("empty".to_string(), Json::Object(Vec::new())),
    ]);
    let pretty = v.render_pretty();
    assert!(pretty.contains("\n    -3,\n"));
    let back = Json::parse(&pretty, &|t: &str| t.parse::<i64>().ok()).unwrap();
    assert_eq!(back.render(), v.render());
}

#[test]
fn a_float_converter_reads_back_what_it_can_represent() {
    let through_f64 = |t: &str| t.parse::<f64>().ok().map(|x| x as i64);
    let v = Json::Array(vec![Json::Number(9007199254740992), Json::Number(-42), Json::str("x")]);
    for text in [v.render(), v.render_pretty()] {
        assert_eq!(Json::parse(&text, &through_f64).unwrap().render(), v.render());
    }
}
