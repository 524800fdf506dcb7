//! The value scanner, seen through attributes: each value type, and each
//! fallback with its diagnostic.

use udon_core::{Event, Parser, Value};

/// The value of the first attribute of `|x :k <text>`, and the messages of
/// the diagnostics that come with it.
fn value_of(text: &str) -> (Option<String>, Vec<String>) {
    let input = format!("|x :k {}\n", text);
    let events = Parser::new(input.as_bytes()).parse();
    let mut value = None;
    let mut errors = Vec::new();
    let mut seen = false;
    for event in events {
        match event {
            Event::Attribute { value: v, .. } if !seen => {
                seen = true;
                value = v.map(|v| show(&v));
            }
            Event::Error { message, .. } => errors.push(message.to_string()),
            _ => {}
        }
    }
    (value, errors)
}

fn text(bytes: &[u8]) -> String {
    String::from_utf8_lossy(bytes).into_owned()
}

fn show(value: &Value<'_>) -> String {
    match value {
        Value::Nil => "nil".to_string(),
        Value::Bool(b) => format!("bool {}", b),
        Value::Integer(i) => format!("int {}", i),
        Value::Float(t) => format!("float {}", text(t)),
        Value::Rational { numerator, denominator } => format!("rational {}/{}", numerator, denominator),
        Value::Complex { real, imag } => format!("complex {}|{}", text(real), text(imag)),
        Value::String(s) => format!("string {}", text(s)),
        Value::QuotedString(s) => format!("quoted {}", text(s)),
        Value::List(items) => {
            let inner: Vec<String> = items.iter().map(show).collect();
            format!("list [{}]", inner.join(", "))
        }
    }
}

fn clean(text: &str, expected: &str) {
    assert_eq!(value_of(text), (Some(expected.to_string()), vec![]), "value {:?}", text);
}

fn fallback(text: &str, message: &str) {
    assert_eq!(
        value_of(text),
        (Some(format!("string {}", text)), vec![message.to_string()]),
        "value {:?}",
        text
    );
}

#[test]
fn nil_words() {
    clean("null", "nil");
    clean("nil", "nil");
    clean("~", "nil");
    clean("Null", "string Null");
    clean("nill", "string nill");
}

#[test]
fn booleans_are_lowercase() {
    clean("true", "bool true");
    clean("false", "bool false");
    clean("True", "string True");
    clean("FALSE", "string FALSE");
}

#[test]
fn decimal_integers() {
    clean("0", "int 0");
    clean("42", "int 42");
    clean("-7", "int -7");
    clean("12345", "int 12345");
    clean("1_000_000", "int 1000000");
    clean("9223372036854775807", "int 9223372036854775807");
    clean("-9223372036854775808", "int -9223372036854775808");
}

#[test]
fn radix_integers() {
    clean("0xFF", "int 255");
    clean("0xff", "int 255");
    clean("0x7FFFFFFFFFFFFFFF", "int 9223372036854775807");
    clean("0o755", "int 493");
    clean("0b1010", "int 10");
    clean("0b1111_0000", "int 240");
    clean("0xdead_beef", "int 3735928559");
}

#[test]
fn integer_overflow_falls_back_to_string() {
    fallback("9223372036854775808", "integer overflow");
    fallback("-9223372036854775809", "integer overflow");
    fallback("99999999999999999999", "integer overflow");
    fallback("0xFFFFFFFFFFFFFFFF", "integer overflow");
    fallback("0x8000000000000000", "integer overflow");
    fallback("1/99999999999999999999r", "integer overflow");
}

#[test]
fn floats_keep_their_text() {
    clean("3.14", "float 3.14");
    clean("-0.5", "float -0.5");
    clean("1.5e-3", "float 1.5e-3");
    clean("2e10", "float 2e10");
    clean("6.02E+23", "float 6.02E+23");
    clean("1_000.5", "float 1_000.5");
}

#[test]
fn malformed_floats_fall_back_to_string() {
    fallback("1.2.3", "invalid float");
    fallback("1.", "invalid float");
    fallback("1e", "invalid float");
    fallback("1.5e+", "invalid float");
    fallback("192.168.1.1", "invalid float");
}

#[test]
fn rationals() {
    clean("1/3r", "rational 1/3");
    clean("-22/7r", "rational -22/7");
    clean("1/0r", "rational 1/0");
    clean("1/3", "string 1/3");
    clean("1/2.5r", "string 1/2.5r");
}

#[test]
fn complex_numbers_keep_their_parts() {
    clean("3+4i", "complex 3|+4");
    clean("5i", "complex |5");
    clean("-3.5-2i", "complex -3.5|-2");
    clean("-2.5i", "complex |-2.5");
    fallback("3+i", "invalid float");
    fallback("1.2.3i", "invalid float");
}

#[test]
fn numbers_that_are_not_numbers_are_strings() {
    clean("12px", "string 12px");
    clean("2024-01-15", "string 2024-01-15");
    clean("-", "string -");
    clean("-x", "string -x");
    clean("0b12", "string 0b12");
    clean("0xZZ", "string 0xZZ");
    clean("1_", "string 1_");
    clean("abc", "string abc");
    clean("x42", "string x42");
}

#[test]
fn quoted_strings_keep_their_escapes() {
    clean("\"Hello World\"", "quoted Hello World");
    clean("\"\"", "quoted ");
    clean("\"a \\\" b\"", "quoted a \\\" b");
    clean("\"12345\"", "quoted 12345");
    clean("\"a ; b | c\"", "quoted a ; b | c");
}

#[test]
fn unterminated_quoted_string() {
    assert_eq!(
        value_of("\"open"),
        (
            Some("string \"open".to_string()),
            vec!["unterminated inline construct".to_string()]
        )
    );
}

#[test]
fn lists_nest() {
    clean("[a b c]", "list [string a, string b, string c]");
    clean("[]", "list []");
    clean("[ 1  2 ]", "list [int 1, int 2]");
    clean("[1 [2 [3]] \"x y\" ~ true 1.5]", "list [int 1, list [int 2, list [int 3]], quoted x y, nil, bool true, float 1.5]");
}

#[test]
fn unterminated_list_keeps_its_items() {
    assert_eq!(
        value_of("[1 2"),
        (
            Some("list [int 1, int 2]".to_string()),
            vec!["unterminated inline construct".to_string()]
        )
    );
    assert_eq!(
        value_of("[1 [2"),
        (
            Some("list [int 1, list [int 2]]".to_string()),
            vec![
                "unterminated inline construct".to_string(),
                "unterminated inline construct".to_string()
            ]
        )
    );
}

#[test]
fn errors_inside_lists_are_reported_in_order() {
    let input = b"|x :k [1.2.3 99999999999999999999]\n";
    let events = Parser::new(input).parse();
    let errors: Vec<(String, u32, u32)> = events
        .iter()
        .filter_map(|e| match e {
            Event::Error { message, span } => Some((message.to_string(), span.start, span.end)),
            _ => None,
        })
        .collect();
    assert_eq!(
        errors,
        vec![
            ("invalid float".to_string(), 7, 12),
            ("integer overflow".to_string(), 13, 33)
        ]
    );
}

#[test]
fn values_end_at_terminators() {
    let events = Parser::new(b"|x :a one;two\n").parse();
    assert!(matches!(
        &events[1],
        Event::Attribute { key: b"a", value: Some(Value::String(b"one")), .. }
    ));
    assert!(matches!(&events[2], Event::Comment { content: b"two", .. }));
    let events = Parser::new(b"|x :a one|y\n").parse();
    assert!(matches!(
        &events[1],
        Event::Attribute { key: b"a", value: Some(Value::String(b"one")), .. }
    ));
    assert!(matches!(&events[2], Event::ElementStart { name: Some(b"y"), .. }));
}

#[test]
fn a_backslash_protects_whitespace_in_a_bare_token() {
    clean("a\\ b", "string a\\ b");
    let events = Parser::new(b"|x :k one\\ two three\n").parse();
    assert!(matches!(
        &events[1],
        Event::Attribute { value: Some(Value::String(b"one\\ two")), .. }
    ));
    assert!(matches!(&events[2], Event::Text { content: b"three", .. }));
    clean("a\\b", "string a\\b");
}

#[test]
fn value_accessors() {
    assert!(Value::Nil.is_nil());
    assert!(!Value::Bool(false).is_nil());
    assert_eq!(Value::Bool(true).as_bool(), Some(true));
    assert_eq!(Value::Integer(1).as_bool(), None);
    assert_eq!(Value::Integer(-5).as_integer(), Some(-5));
    assert_eq!(Value::Nil.as_integer(), None);
    assert_eq!(Value::String(b"abc").as_bytes(), Some(&b"abc"[..]));
    assert_eq!(Value::QuotedString(b"a b").as_bytes(), Some(&b"a b"[..]));
    assert_eq!(Value::Float(b"1.5").as_bytes(), None);
    assert_eq!(Value::List(vec![]).as_bytes(), None);
}

#[test]
fn values_clone_and_compare() {
    let list = Value::List(vec![
        Value::Integer(1),
        Value::String(b"a"),
        Value::List(vec![Value::Nil, Value::Complex { real: b"1", imag: b"+2" }]),
    ]);
    let copy = list.clone();
    assert_eq!(list, copy);
    assert_ne!(list, Value::List(vec![]));
    assert_ne!(Value::String(b"a"), Value::QuotedString(b"a"));
}
