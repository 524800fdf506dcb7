//! Event records and the pull cursor.

use udon_core::abi::{
    convert_event, UdonEventData, UdonEventType, UdonFloat, UdonParser, UdonSlice, UdonSpan,
    UdonValue, UdonValueType, MAX_CLASSES,
};
use udon_core::{Event, Parser, Span, Value};

#[test]
fn test_basic_parse() {
    let input = b"|div Hello\n";
    let mut parser = UdonParser::new(input);

    let count = parser.event_count();
    assert!(count > 0);

    let event = parser.next();
    assert!(event.is_some());

    let event = event.unwrap();
    assert_eq!(event.event_type, UdonEventType::ElementStart);
}

#[test]
fn test_empty_input() {
    let mut parser = UdonParser::new(b"");

    let count = parser.event_count();
    assert_eq!(count, 0);

    let event = parser.next();
    assert!(event.is_none());
}

#[test]
fn pull_yields_the_eager_sequence() {
    let input = b"|a[x].k :n 1\n  text !{y}\n!raw:t\n  body\n";
    let eager = Parser::new(input).parse();
    let mut cursor = UdonParser::new(input);
    assert_eq!(cursor.event_count(), eager.len());
    for event in &eager {
        let record = cursor.next().expect("one record per event");
        assert_eq!(record.event_type, convert_event(event).event_type);
        assert_eq!(format!("{:?}", record), format!("{:?}", convert_event(event)));
    }
    assert!(cursor.next().is_none());
    assert!(cursor.next().is_none());
}

#[test]
fn reset_rewinds_to_the_first_event() {
    let mut cursor = UdonParser::new(b"; a\n; b\n");
    let first = format!("{:?}", cursor.next());
    assert!(cursor.next().is_some());
    assert!(cursor.next().is_none());
    cursor.reset();
    assert_eq!(format!("{:?}", cursor.next()), first);
    assert_eq!(cursor.event_count(), 2);
}

#[test]
fn event_type_codes() {
    let all = [
        UdonEventType::ElementStart,
        UdonEventType::ElementEnd,
        UdonEventType::Attribute,
        UdonEventType::EmbeddedStart,
        UdonEventType::EmbeddedEnd,
        UdonEventType::DirectiveStart,
        UdonEventType::DirectiveEnd,
        UdonEventType::InlineDirective,
        UdonEventType::Interpolation,
        UdonEventType::Text,
        UdonEventType::RawContent,
        UdonEventType::Comment,
        UdonEventType::IdReference,
        UdonEventType::AttributeMerge,
        UdonEventType::FreeformStart,
        UdonEventType::FreeformEnd,
        UdonEventType::Error,
    ];
    for (index, tag) in all.iter().enumerate() {
        assert_eq!(tag.code() as usize, index + 1);
    }
}

#[test]
fn value_type_codes() {
    let all = [
        UdonValueType::Absent,
        UdonValueType::Nil,
        UdonValueType::Bool,
        UdonValueType::Integer,
        UdonValueType::Float,
        UdonValueType::Rational,
        UdonValueType::Complex,
        UdonValueType::String,
        UdonValueType::QuotedString,
        UdonValueType::List,
    ];
    for (index, tag) in all.iter().enumerate() {
        assert_eq!(tag.code() as usize, index);
    }
}

#[test]
fn slices() {
    let slice = UdonSlice::from_bytes(b"abc");
    assert_eq!(slice.bytes, Some(&b"abc"[..]));
    assert_eq!(slice.len(), 3);
    let null = UdonSlice::null();
    assert_eq!(null.bytes, None);
    assert_eq!(null.len(), 0);
}

#[test]
fn span_records() {
    let span = UdonSpan::from(Span { start: 3, end: 9 });
    assert_eq!(span, UdonSpan { start: 3, end: 9 });
}

#[test]
fn value_records() {
    let none = UdonValue::from_value(None);
    assert_eq!(none.value_type, UdonValueType::Absent);
    assert_eq!(none.data.bytes, None);
    assert_eq!(none.int_value, 0);
    assert!(matches!(none.float_value, UdonFloat::Zero));

    let nil = UdonValue::from_value(Some(&Value::Nil));
    assert_eq!(nil.value_type, UdonValueType::Nil);

    let yes = UdonValue::from_value(Some(&Value::Bool(true)));
    assert_eq!((yes.value_type, yes.int_value), (UdonValueType::Bool, 1));
    let no = UdonValue::from_value(Some(&Value::Bool(false)));
    assert_eq!((no.value_type, no.int_value), (UdonValueType::Bool, 0));

    let int = UdonValue::from_value(Some(&Value::Integer(-42)));
    assert_eq!((int.value_type, int.int_value), (UdonValueType::Integer, -42));

    let float = UdonValue::from_value(Some(&Value::Float(b"1.5")));
    assert_eq!(float.value_type, UdonValueType::Float);
    assert!(matches!(float.float_value, UdonFloat::Literal(b"1.5")));
    assert_eq!(float.data.bytes, None);

    let rational = UdonValue::from_value(Some(&Value::Rational { numerator: 22, denominator: 7 }));
    assert_eq!((rational.value_type, rational.int_value), (UdonValueType::Rational, 22));
    assert!(matches!(rational.float_value, UdonFloat::Integer(7)));

    let complex = UdonValue::from_value(Some(&Value::Complex { real: b"3", imag: b"+4" }));
    assert_eq!((complex.value_type, complex.int_value), (UdonValueType::Complex, 0));
    assert!(matches!(complex.float_value, UdonFloat::Literal(b"3")));

    let string = UdonValue::from_value(Some(&Value::String(b"abc")));
    assert_eq!(string.value_type, UdonValueType::String);
    assert_eq!(string.data.bytes, Some(&b"abc"[..]));

    let quoted = UdonValue::from_value(Some(&Value::QuotedString(b"a b")));
    assert_eq!(quoted.value_type, UdonValueType::QuotedString);
    assert_eq!(quoted.data.bytes, Some(&b"a b"[..]));

    let list = UdonValue::from_value(Some(&Value::List(vec![Value::Nil])));
    assert_eq!(list.value_type, UdonValueType::List);
    assert_eq!(list.data.bytes, None);
}

#[test]
fn element_record_keeps_sixteen_classes() {
    let names: Vec<String> = (0..20).map(|k| format!("c{}", k)).collect();
    let input = format!("|e.{}!\n", names.join("."));
    let events = Parser::new(input.as_bytes()).parse();
    match &events[0] {
        Event::ElementStart { classes, .. } => assert_eq!(classes.len(), 20),
        other => panic!("unexpected {:?}", other),
    }
    let record = convert_event(&events[0]);
    assert_eq!(record.event_type, UdonEventType::ElementStart);
    match record.data {
        UdonEventData::ElementStart(d) => {
            assert_eq!(d.name.bytes, Some(&b"e"[..]));
            assert_eq!(d.num_classes as usize, MAX_CLASSES);
            assert_eq!(d.classes.len(), MAX_CLASSES);
            for (k, class) in d.classes.iter().enumerate() {
                assert_eq!(class.bytes, Some(names[k].as_bytes()));
            }
            assert_eq!(d.suffix, b'!');
            assert_eq!(d.id.value_type, UdonValueType::Absent);
        }
        other => panic!("unexpected {:?}", other),
    }
}

#[test]
fn records_of_each_kind() {
    let input = b"|a[7] :k v\n  t !{x} !n:d{c} |{e} @[r] ; c\n  :[m]\n!raw:q\n  body\n```\nfree\n```\n|b% \n";
    let events = Parser::new(input).parse();
    let mut seen = Vec::new();
    for event in &events {
        let record = convert_event(event);
        let span = event.span();
        let expected = UdonSpan { start: span.start, end: span.end };
        match (&record.data, event) {
            (UdonEventData::ElementStart(d), Event::ElementStart { name, .. }) => {
                assert_eq!(d.name.bytes, *name);
                assert_eq!(d.span, expected);
            }
            (UdonEventData::ElementStart(d), Event::EmbeddedStart { name, .. }) => {
                assert_eq!(d.name.bytes, *name);
                assert_eq!(d.suffix, 0);
                assert_eq!(d.span, expected);
            }
            (UdonEventData::Attribute(d), Event::Attribute { key, .. }) => {
                assert_eq!(d.key.bytes, Some(*key));
                assert_eq!(d.span, expected);
            }
            (UdonEventData::Directive(d), Event::DirectiveStart { name, namespace, is_raw, .. }) => {
                assert_eq!(d.name.bytes, Some(*name));
                assert_eq!(d.namespace.bytes, *namespace);
                assert_eq!(d.is_raw, *is_raw);
                assert_eq!(d.span, expected);
            }
            (
                UdonEventData::InlineDirective(d),
                Event::InlineDirective { name, namespace, is_raw, content, .. },
            ) => {
                assert_eq!(d.name.bytes, Some(*name));
                assert_eq!(d.namespace.bytes, *namespace);
                assert_eq!(d.is_raw, *is_raw);
                assert_eq!(d.content.bytes, Some(*content));
                assert_eq!(d.span, expected);
            }
            (UdonEventData::Content(d), Event::Text { content, .. })
            | (UdonEventData::Content(d), Event::RawContent { content, .. })
            | (UdonEventData::Content(d), Event::Comment { content, .. }) => {
                assert_eq!(d.content.bytes, Some(*content));
                assert_eq!(d.span, expected);
            }
            (UdonEventData::Content(d), Event::Interpolation { expression, .. }) => {
                assert_eq!(d.content.bytes, Some(*expression));
            }
            (UdonEventData::Content(d), Event::IdReference { id, .. })
            | (UdonEventData::Content(d), Event::AttributeMerge { id, .. }) => {
                assert_eq!(d.content.bytes, Some(*id));
            }
            (UdonEventData::Error(d), Event::Error { message, .. }) => {
                assert_eq!(d.message, *message);
                assert_eq!(d.span, expected);
            }
            (UdonEventData::Span(s), Event::ElementEnd { .. })
            | (UdonEventData::Span(s), Event::EmbeddedEnd { .. })
            | (UdonEventData::Span(s), Event::DirectiveEnd { .. })
            | (UdonEventData::Span(s), Event::FreeformStart { .. })
            | (UdonEventData::Span(s), Event::FreeformEnd { .. }) => assert_eq!(*s, expected),
            (data, event) => panic!("{:?} does not fit {:?}", data, event),
        }
        if !seen.contains(&record.event_type) {
            seen.push(record.event_type);
        }
    }
    assert_eq!(seen.len(), 17, "every event type occurs: {:?}", seen);
}
