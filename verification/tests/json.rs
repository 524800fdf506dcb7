//! Event records of owned text.

use udon_core::json::{event_to_json, value_to_json, JsonEvent, JsonValue};
use udon_core::{Event, Parser, Span, Value};

fn records(input: &[u8]) -> Vec<String> {
    Parser::new(input).parse().iter().map(|e| format!("{:?}", event_to_json(e))).collect()
}

#[test]
fn values_become_records() {
    assert!(matches!(value_to_json(&Value::Nil), JsonValue::Null));
    assert!(matches!(value_to_json(&Value::Bool(true)), JsonValue::Bool(true)));
    assert!(matches!(value_to_json(&Value::Integer(-3)), JsonValue::Int(-3)));
    assert!(matches!(value_to_json(&Value::Float(b"1.5")), JsonValue::Float(b"1.5")));
    assert!(matches!(
        value_to_json(&Value::Complex { real: b"3", imag: b"+4" }),
        JsonValue::Complex { real: b"3", imag: b"+4" }
    ));
    match value_to_json(&Value::String(b"bare")) {
        JsonValue::String(text) => assert_eq!(text, "bare"),
        other => panic!("unexpected {:?}", other),
    }
    match value_to_json(&Value::QuotedString(b"a b")) {
        JsonValue::String(text) => assert_eq!(text, "a b"),
        other => panic!("unexpected {:?}", other),
    }
    match value_to_json(&Value::List(vec![Value::Integer(1)])) {
        JsonValue::String(text) => assert_eq!(text, "[list]"),
        other => panic!("unexpected {:?}", other),
    }
}

#[test]
fn rationals_are_written_in_decimal() {
    let cases: [(i64, i64, &str); 6] = [
        (22, 7, "22/7"),
        (-1, 3, "-1/3"),
        (0, 1, "0/1"),
        (1, 0, "1/0"),
        (i64::MAX, i64::MAX, "9223372036854775807/9223372036854775807"),
        (i64::MIN, 10, "-9223372036854775808/10"),
    ];
    for (numerator, denominator, expected) in cases {
        match value_to_json(&Value::Rational { numerator, denominator }) {
            JsonValue::String(text) => assert_eq!(text, expected),
            other => panic!("unexpected {:?}", other),
        }
    }
}

#[test]
fn bytes_are_read_as_utf8_with_replacement() {
    let event = Event::Text { content: b"caf\xc3\xa9 \xff!", span: Span { start: 0, end: 8 } };
    match event_to_json(&event) {
        JsonEvent::Text { content, span } => {
            assert_eq!(content, "caf\u{e9} \u{fffd}!");
            assert_eq!(span, Span { start: 0, end: 8 });
        }
        other => panic!("unexpected {:?}", other),
    }
}

#[test]
fn element_start_record() {
    let events = Parser::new(b"|div[main].container.wide? :n 2/3r\n").parse();
    match event_to_json(&events[0]) {
        JsonEvent::ElementStart { name, id, classes, suffix, span } => {
            assert_eq!(name.as_deref(), Some("div"));
            assert!(matches!(id, Some(JsonValue::String(ref text)) if text == "main"));
            assert_eq!(classes, vec!["container".to_string(), "wide".to_string()]);
            assert_eq!(suffix, Some('?'));
            assert_eq!(span, Span { start: 0, end: 26 });
        }
        other => panic!("unexpected {:?}", other),
    }
    match event_to_json(&events[1]) {
        JsonEvent::Attribute { key, value, span } => {
            assert_eq!(key, "n");
            assert!(matches!(value, Some(JsonValue::String(ref text)) if text == "2/3"));
            assert_eq!(span, Span { start: 27, end: 34 });
        }
        other => panic!("unexpected {:?}", other),
    }
    assert!(matches!(
        event_to_json(&events[2]),
        JsonEvent::ElementEnd { span: Span { start: 35, end: 35 } }
    ));
}

#[test]
fn every_kind_of_event_has_its_record() {
    let input =
        b"|a :k\n  t !{x} !n:d{c} |{e} @[r] ; c\n  :[m]\n!raw:q\n  body\n```\nfree\n```\n|b% \n";
    let got = records(input);
    let expected = [
        "ElementStart { name: Some(\"a\"), id: None, classes: [], suffix: None, span: Span { start: 0, end: 2 } }",
        "Attribute { key: \"k\", value: None, span: Span { start: 3, end: 5 } }",
        "Text { content: \"t \", span: Span { start: 8, end: 10 } }",
        "Interpolation { expression: \"x\", span: Span { start: 10, end: 14 } }",
        "Text { content: \" \", span: Span { start: 14, end: 15 } }",
        "InlineDirective { name: \"d\", namespace: Some(\"n\"), is_raw: false, content: \"c\", span: Span { start: 15, end: 22 } }",
        "Text { content: \" \", span: Span { start: 22, end: 23 } }",
        "EmbeddedStart { name: Some(\"e\"), id: None, classes: [], span: Span { start: 23, end: 26 } }",
        "EmbeddedEnd { span: Span { start: 26, end: 27 } }",
        "Text { content: \" \", span: Span { start: 27, end: 28 } }",
        "IdReference { id: \"r\", span: Span { start: 28, end: 32 } }",
        "Text { content: \" \", span: Span { start: 32, end: 33 } }",
        "Comment { content: \" c\", span: Span { start: 33, end: 36 } }",
        "AttributeMerge { id: \"m\", span: Span { start: 39, end: 43 } }",
        "ElementEnd { span: Span { start: 44, end: 44 } }",
        "DirectiveStart { name: \"q\", namespace: Some(\"raw\"), is_raw: true, span: Span { start: 44, end: 50 } }",
        "RawContent { content: \"body\\n\", span: Span { start: 53, end: 58 } }",
        "DirectiveEnd { span: Span { start: 58, end: 58 } }",
        "FreeformStart { span: Span { start: 58, end: 61 } }",
        "RawContent { content: \"free\\n\", span: Span { start: 62, end: 67 } }",
        "FreeformEnd { span: Span { start: 67, end: 70 } }",
        "ElementStart { name: Some(\"b\"), id: None, classes: [], suffix: None, span: Span { start: 71, end: 74 } }",
        "Error { message: \"unknown suffix\", span: Span { start: 73, end: 74 } }",
        "ElementEnd { span: Span { start: 76, end: 76 } }",
    ];
    assert_eq!(got.len(), expected.len(), "{:#?}", got);
    for (g, e) in got.iter().zip(expected.iter()) {
        assert_eq!(g, e);
    }
}
