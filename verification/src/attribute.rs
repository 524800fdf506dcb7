//! The attribute parser: `:key value`, the flag `:key`, and the merge
//! `:[id]`.

use vstd::prelude::*;
use vstd::slice::slice_subrange;
use crate::event::{
    emit, emit_all, error_event, events_view, push_error, ErrorKind, Event, EventView,
};
use crate::lex::{
    byte_is_ident_start, is_ident_start, lemma_run_end, run_end, scan_run, ByteClass, LBRACKET,
    RBRACKET,
};
use crate::span::{span_of, Span};
use crate::values::{lemma_value_at_bounds, scan_value, value_at};

verus! {

/// Mathematical model of an attribute scan: its events, and the offset just
/// past it.
pub struct AttributeScan {
    pub events: Seq<EventView>,
    pub end: int,
}

/// The merge `:[id]` whose `:` stands at `k`. Without the closing `]` a
/// diagnostic is emitted and scanning resumes at the next whitespace.
pub open spec fn merge_at(s: Seq<u8>, k: int, e: int) -> AttributeScan {
    let r = run_end(s, k + 2, e, ByteClass::Ident);
    if 0 <= r < e <= s.len() && s[r] == RBRACKET {
        AttributeScan {
            events: seq![
                EventView::AttributeMerge { id: s.subrange(k + 2, r), span: span_of(k, r + 1) },
            ],
            end: r + 1,
        }
    } else {
        AttributeScan {
            events: seq![error_event(ErrorKind::MissingBracket, k, r)],
            end: run_end(s, r, e, ByteClass::Solid),
        }
    }
}

/// The attribute `:key value` whose `:` stands at `k` and whose key is an
/// identifier. The value is what the value scanner finds after optional
/// whitespace; where it finds none, the attribute is a flag and ends with
/// its key.
pub open spec fn keyed_at(s: Seq<u8>, k: int, e: int) -> AttributeScan {
    let key_end = run_end(s, k + 1, e, ByteClass::Ident);
    let v = value_at(s, run_end(s, key_end, e, ByteClass::Blank), e, false);
    let end = if v.value is Some {
        v.end
    } else {
        key_end
    };
    AttributeScan {
        events: seq![
            EventView::Attribute {
                key: s.subrange(k + 1, key_end),
                value: v.value,
                span: span_of(k, end),
            },
        ] + v.errors,
        end,
    }
}

/// What the `:` at `k` starts: a merge before `[`, an attribute before an
/// identifier; before anything else the `:` is out of place, which is
/// reported, and scanning resumes at the next whitespace.
pub open spec fn attribute_at(s: Seq<u8>, k: int, e: int) -> AttributeScan {
    if 0 <= k && k + 1 < e <= s.len() && s[k + 1] == LBRACKET {
        merge_at(s, k, e)
    } else if 0 <= k && k + 1 < e <= s.len() && is_ident_start(s[k + 1]) {
        keyed_at(s, k, e)
    } else {
        AttributeScan {
            events: seq![error_event(ErrorKind::UnexpectedCharacter, k, k + 1)],
            end: run_end(s, k + 1, e, ByteClass::Solid),
        }
    }
}

/// An attribute scan moves forward and stays in its window.
pub proof fn lemma_attribute_at_bounds(s: Seq<u8>, k: int, e: int)
    requires
        0 <= k < e <= s.len(),
    ensures
        k < attribute_at(s, k, e).end <= e,
{
    lemma_run_end(s, k + 1, e, ByteClass::Solid);
    if k + 1 < e {
        lemma_run_end(s, k + 2, e, ByteClass::Ident);
        lemma_run_end(s, run_end(s, k + 2, e, ByteClass::Ident), e, ByteClass::Solid);
        lemma_run_end(s, k + 1, e, ByteClass::Ident);
        let key_end = run_end(s, k + 1, e, ByteClass::Ident);
        lemma_run_end(s, key_end, e, ByteClass::Blank);
        lemma_value_at_bounds(s, run_end(s, key_end, e, ByteClass::Blank), e, false);
    }
}

/// Parses what the `:` at `k` starts and appends its events.
pub fn parse_attribute<'a>(input: &'a [u8], k: usize, e: usize, events: &mut Vec<Event<'a>>) -> (end:
    usize)
    requires
        k < e <= input@.len(),
    ensures
        events_view(final(events)@) == events_view(old(events)@) + attribute_at(
            input@,
            k as int,
            e as int,
        ).events,
        end == attribute_at(input@, k as int, e as int).end,
        k < end <= e,
{
    let ghost s = input@;
    let ghost before = events_view(events@);
    proof {
        lemma_attribute_at_bounds(s, k as int, e as int);
    }
    if e - k > 1 && input[k + 1] == LBRACKET {
        let r = scan_run(input, k + 2, e, ByteClass::Ident);
        if r < e && input[r] == RBRACKET {
            emit(
                events,
                Event::AttributeMerge {
                    id: slice_subrange(input, k + 2, r),
                    span: Span::new(k, r + 1),
                },
            );
            assert(events_view(events@) =~= before + merge_at(s, k as int, e as int).events);
            r + 1
        } else {
            push_error(events, ErrorKind::MissingBracket, k, r);
            assert(events_view(events@) =~= before + merge_at(s, k as int, e as int).events);
            scan_run(input, r, e, ByteClass::Solid)
        }
    } else if e - k > 1 && byte_is_ident_start(input[k + 1]) {
        let key_end = scan_run(input, k + 1, e, ByteClass::Ident);
        let value_start = scan_run(input, key_end, e, ByteClass::Blank);
        let mut errors: Vec<Event<'a>> = Vec::new();
        let (value, value_end) = scan_value(input, value_start, e, false, &mut errors);
        let ghost v = value_at(s, value_start as int, e as int, false);
        assert(events_view(errors@) =~= v.errors);
        let end = if value.is_some() {
            value_end
        } else {
            key_end
        };
        emit(
            events,
            Event::Attribute {
                key: slice_subrange(input, k + 1, key_end),
                value,
                span: Span::new(k, end),
            },
        );
        emit_all(events, &mut errors);
        assert(events_view(events@) =~= before + keyed_at(s, k as int, e as int).events);
        end
    } else {
        push_error(events, ErrorKind::UnexpectedCharacter, k, k + 1);
        assert(events_view(events@) =~= before + attribute_at(s, k as int, e as int).events);
        scan_run(input, k + 1, e, ByteClass::Solid)
    }
}

} // verus!
