//! Spans and locations.

use udon_core::{ErrorKind, Event, Location, Parser, Span};

#[test]
fn span_new_keeps_its_offsets() {
    let span = Span::new(3, 10);
    assert_eq!(span, Span { start: 3, end: 10 });
    assert_eq!(span.len(), 7);
    assert!(!span.is_empty());
}

#[test]
fn span_empty_is_zero() {
    let span = Span::empty();
    assert_eq!((span.start, span.end), (0, 0));
    assert_eq!(span.len(), 0);
    assert!(span.is_empty());
    assert_eq!(Span::default(), span);
}

#[test]
fn span_is_empty_compares_the_offsets() {
    assert!(Span::new(5, 5).is_empty());
    assert!(!Span::new(5, 6).is_empty());
}

#[test]
fn span_offsets_wrap_at_four_gigabytes() {
    let big = u32::MAX as u64 + 8;
    if let Ok(offset) = usize::try_from(big) {
        let span = Span::new(offset, offset);
        assert_eq!((span.start, span.end), (7, 7));
    }
    let span = Span::new(u32::MAX as usize, u32::MAX as usize);
    assert_eq!(span.start, u32::MAX);
}

#[test]
fn location_new_keeps_its_fields() {
    let location = Location::new(3, 14, 159);
    assert_eq!((location.line, location.column, location.byte_offset), (3, 14, 159));
    let zero = Location::default();
    assert_eq!((zero.line, zero.column, zero.byte_offset), (0, 0, 0));
}

#[test]
fn location_counts_lines_and_columns_from_one() {
    let input = b"ab\ncde\n\nf";
    let expected = [
        (0, 1, 1),
        (1, 1, 2),
        (2, 1, 3),
        (3, 2, 1),
        (4, 2, 2),
        (5, 2, 3),
        (6, 2, 4),
        (7, 3, 1),
        (8, 4, 1),
        (9, 4, 2),
    ];
    for (offset, line, column) in expected {
        let location = Location::at(input, offset);
        assert_eq!(
            (location.line, location.column, location.byte_offset),
            (line, column, offset as u32),
            "offset {}",
            offset
        );
    }
}

#[test]
fn location_past_the_end_is_the_end() {
    let location = Location::at(b"a\nb", 100);
    assert_eq!((location.line, location.column, location.byte_offset), (2, 2, 3));
    let location = Location::at(b"", 0);
    assert_eq!((location.line, location.column, location.byte_offset), (1, 1, 0));
}

#[test]
fn errors_resolve_to_line_and_column() {
    let input = b"|a\n  |b% text\n";
    let events = Parser::new(input).parse();
    let error = events.iter().find(|e| e.is_error()).expect("one error");
    match error {
        Event::Error { message, span } => {
            assert_eq!(*message, "unknown suffix");
            let location = Location::at(input, span.start as usize);
            assert_eq!((location.line, location.column), (2, 5));
        }
        _ => unreachable!(),
    }
}

#[test]
fn error_messages_are_fixed_and_distinct() {
    let kinds = [
        (ErrorKind::InconsistentIndentation, "inconsistent indentation"),
        (ErrorKind::UnterminatedInline, "unterminated inline construct"),
        (ErrorKind::MalformedHeader, "malformed element header"),
        (ErrorKind::MissingBracket, "missing closing bracket"),
        (ErrorKind::IntegerOverflow, "integer overflow"),
        (ErrorKind::InvalidFloat, "invalid float"),
        (ErrorKind::UnknownSuffix, "unknown suffix"),
        (ErrorKind::UnexpectedCharacter, "unexpected character"),
    ];
    for (kind, message) in kinds {
        assert_eq!(kind.message(), message);
    }
    for (i, a) in kinds.iter().enumerate() {
        for b in &kinds[i + 1..] {
            assert_ne!(a.1, b.1);
        }
    }
}

#[test]
fn events_clone_with_their_payload() {
    let input = b"|a[7].x.y? :k [1 2]\n";
    let events = Parser::new(input).parse();
    for event in &events {
        let copy = event.clone();
        assert_eq!(format!("{:?}", copy), format!("{:?}", event));
        assert_eq!(copy.span(), event.span());
        assert_eq!(copy.is_error(), event.is_error());
    }
}
