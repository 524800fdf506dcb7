//! Where events lie: every span is inside the buffer, and no event starts
//! before an earlier one.

use vstd::prelude::*;
use crate::attribute::{attribute_at, keyed_at, lemma_attribute_at_bounds, merge_at};
use crate::block::{
    block_at, directive_events, directive_start, fence_line, freeform_end, freeform_events,
    freeform_next, is_block_directive, is_fence, lemma_block_at_bounds, lemma_fence_line_bounds,
    lemma_line_bounds, lemma_raw_body_bounds, line_end, next_line, raw_body, raw_events,
};
use crate::event::{error_event, ErrorKind, EventView};
use crate::lex::{
    brace_close, is_ident_start, lemma_brace_close, lemma_run_end, lemma_token_end, run_end,
    token_end, ByteClass, APOSTROPHE,
    AT, BANG, BAR, COLON, LBRACE, LBRACKET, QUOTE, RBRACKET, SEMICOLON,
};
use crate::header::{
    classes_at, header_at, id_at, is_header_stop, lemma_classes_at_bounds, lemma_header_at_bounds,
    name_end, next_within, suffix_at,
};
use crate::indent::{close_events, dedent_events, dedent_of, end_event, Frame};
use crate::inline::{
    construct, construct_at, directive_name, directive_step, embedded_step, inline_events,
    interpolation_step, is_escapable, lemma_directive_name_bounds, reference_step, text_events,
    unterminated, StepView,
};
use crate::line::{closers, element_events, element_start, starts_element, tail_events};
use crate::parser::{document_events, events_from, line_at};
use crate::span::span_of;
use crate::values::{bare_value, lemma_list_at_bounds, lemma_value_at_bounds, list_at, value_at};

verus! {

/// Offset at which an event starts.
pub open spec fn start_of(event: EventView) -> int {
    event.span().start as int
}

/// Offset at which an event ends.
pub open spec fn end_of(event: EventView) -> int {
    event.span().end as int
}

/// Every event starts in `[lo, mid]` and ends, at or after its start, in a
/// buffer of `len` bytes; and no event starts before an earlier one.
pub open spec fn ordered_in(events: Seq<EventView>, lo: int, mid: int, len: int) -> bool {
    &&& forall|i: int|
        0 <= i < events.len() ==> lo <= start_of(#[trigger] events[i]) <= mid && start_of(
            events[i],
        ) <= end_of(events[i]) <= len
    &&& forall|i: int, j: int|
        0 <= i < j < events.len() ==> start_of(#[trigger] events[i]) <= start_of(
            #[trigger] events[j],
        )
}

/// Events that end before others start can be put in front of them.
pub proof fn lemma_ordered_add(
    a: Seq<EventView>,
    b: Seq<EventView>,
    lo: int,
    cut: int,
    mid: int,
    len: int,
)
    requires
        ordered_in(a, lo, cut, len),
        ordered_in(b, cut, mid, len),
        lo <= cut <= mid,
    ensures
        ordered_in(a + b, lo, mid, len),
{
    let c = a + b;
    assert forall|i: int| 0 <= i < c.len() implies lo <= start_of(#[trigger] c[i]) <= mid
        && start_of(c[i]) <= end_of(c[i]) <= len by {
        if i < a.len() {
            assert(c[i] == a[i]);
        } else {
            assert(c[i] == b[i - a.len()]);
        }
    }
    assert forall|i: int, j: int| 0 <= i < j < c.len() implies start_of(#[trigger] c[i])
        <= start_of(#[trigger] c[j]) by {
        if i < a.len() {
            assert(c[i] == a[i]);
        } else {
            assert(c[i] == b[i - a.len()]);
        }
        if j < a.len() {
            assert(c[j] == a[j]);
        } else {
            assert(c[j] == b[j - a.len()]);
        }
    }
}

/// An event can be put after events that start no later than it.
pub proof fn lemma_ordered_push(
    a: Seq<EventView>,
    event: EventView,
    lo: int,
    cut: int,
    mid: int,
    len: int,
)
    requires
        ordered_in(a, lo, cut, len),
        lo <= cut <= start_of(event) <= mid,
        start_of(event) <= end_of(event) <= len,
    ensures
        ordered_in(a.push(event), lo, mid, len),
{
    assert(ordered_in(seq![event], cut, mid, len));
    lemma_ordered_add(a, seq![event], lo, cut, mid, len);
    assert(a.push(event) =~= a + seq![event]);
}

/// Wider bounds on the starts still hold.
pub proof fn lemma_ordered_widen(
    a: Seq<EventView>,
    lo: int,
    mid: int,
    len: int,
    lo2: int,
    mid2: int,
)
    requires
        ordered_in(a, lo, mid, len),
        lo2 <= lo,
        mid <= mid2,
    ensures
        ordered_in(a, lo2, mid2, len),
{
}

/// The diagnostics of a bare token lie over the token.
pub proof fn lemma_bare_value_order(s: Seq<u8>, i: int, t: int)
    requires
        0 <= i < t <= s.len() <= u32::MAX,
    ensures
        ordered_in(bare_value(s, i, t).errors, i, i, t),
        bare_value(s, i, t).end == t,
        bare_value(s, i, t).value is Some,
{
    assert(ordered_in(seq![error_event(ErrorKind::IntegerOverflow, i, t)], i, i, t));
    assert(ordered_in(seq![error_event(ErrorKind::InvalidFloat, i, t)], i, i, t));
    assert(ordered_in(Seq::<EventView>::empty(), i, i, t));
}

/// The diagnostics of a value start inside the value, in order.
pub proof fn lemma_value_at_order(s: Seq<u8>, i: int, e: int, bracketed: bool)
    requires
        0 <= i <= e <= s.len() <= u32::MAX,
    ensures
        ordered_in(
            value_at(s, i, e, bracketed).errors,
            i,
            value_at(s, i, e, bracketed).end,
            value_at(s, i, e, bracketed).end,
        ),
    decreases e - i, 0nat,
{
    let v = value_at(s, i, e, bracketed);
    lemma_value_at_bounds(s, i, e, bracketed);
    if i < e {
        if s[i] == QUOTE {
            assert(ordered_in(seq![error_event(ErrorKind::UnterminatedInline, i, e)], i, e, e));
        } else if s[i] == LBRACKET {
            let l = list_at(s, i + 1, e);
            lemma_list_at_order(s, i + 1, e);
            lemma_list_at_bounds(s, i + 1, e);
            lemma_ordered_widen(l.errors, i + 1, l.end, l.end, i, l.end);
            if !l.closed {
                lemma_ordered_push(
                    l.errors,
                    error_event(ErrorKind::UnterminatedInline, l.end, l.end),
                    i,
                    l.end,
                    l.end,
                    l.end,
                );
            }
        } else {
            let t = token_end(s, i, e, bracketed);
            lemma_token_end(s, i, e, bracketed);
            if t > i {
                lemma_bare_value_order(s, i, t);
                lemma_ordered_widen(bare_value(s, i, t).errors, i, i, t, i, t);
            }
        }
    }
}

/// The diagnostics of a list's items start inside the list, in order.
pub proof fn lemma_list_at_order(s: Seq<u8>, j: int, e: int)
    requires
        0 <= j <= e <= s.len() <= u32::MAX,
    ensures
        ordered_in(list_at(s, j, e).errors, j, list_at(s, j, e).end, list_at(s, j, e).end),
    decreases e - j, 1nat,
{
    let k = run_end(s, j, e, ByteClass::Blank);
    lemma_run_end(s, j, e, ByteClass::Blank);
    lemma_list_at_bounds(s, j, e);
    if k < e && s[k] != RBRACKET {
        let v = value_at(s, k, e, true);
        if k < v.end <= e && v.value is Some {
            let rest = list_at(s, v.end, e);
            lemma_value_at_order(s, k, e, true);
            lemma_list_at_order(s, v.end, e);
            lemma_list_at_bounds(s, v.end, e);
            lemma_ordered_widen(v.errors, k, v.end, v.end, j, v.end);
            assert(ordered_in(v.errors, j, v.end, rest.end));
            lemma_ordered_add(v.errors, rest.errors, j, v.end, rest.end, rest.end);
        }
    }
}

/// The diagnostics of an `[id]` part start inside it, in order.
pub proof fn lemma_id_at_order(s: Seq<u8>, n: int, e: int)
    requires
        0 <= n <= e <= s.len() <= u32::MAX,
    ensures
        ordered_in(id_at(s, n, e).errors, n, id_at(s, n, e).end, e),
        n <= id_at(s, n, e).end <= e,
{
    if n < e && s[n] == LBRACKET {
        let v = value_at(s, n + 1, e, true);
        lemma_value_at_bounds(s, n + 1, e, true);
        lemma_value_at_order(s, n + 1, e, true);
        lemma_run_end(s, v.end, e, ByteClass::Solid);
        lemma_ordered_widen(v.errors, n + 1, v.end, v.end, n, v.end);
        assert(ordered_in(v.errors, n, v.end, e));
        if n < v.end < e && s[v.end] == RBRACKET {
            if v.value is None {
                lemma_ordered_push(
                    v.errors,
                    error_event(ErrorKind::UnexpectedCharacter, v.end, v.end + 1),
                    n,
                    v.end,
                    v.end + 1,
                    e,
                );
            } else {
                lemma_ordered_widen(v.errors, n, v.end, e, n, v.end + 1);
            }
        } else {
            lemma_ordered_push(
                v.errors,
                error_event(ErrorKind::MissingBracket, v.end, v.end),
                n,
                v.end,
                id_at(s, n, e).end,
                e,
            );
        }
    }
}

/// The diagnostics of a header start inside it, in order.
pub proof fn lemma_header_at_order(s: Seq<u8>, p: int, e: int)
    requires
        0 <= p <= e <= s.len() <= u32::MAX,
    ensures
        ordered_in(header_at(s, p, e).errors, p, header_at(s, p, e).end, e),
        p <= header_at(s, p, e).end <= e,
{
    lemma_header_at_bounds(s, p, e);
    lemma_run_end(s, p, e, ByteClass::Ident);
    let n = name_end(s, p, e);
    let i = id_at(s, n, e);
    lemma_id_at_order(s, n, e);
    lemma_classes_at_bounds(s, i.end, e);
    let c = classes_at(s, i.end, e);
    lemma_run_end(s, c.end, e, ByteClass::Solid);
    let suffix = suffix_at(s, c.end, e);
    let q = if suffix is Some {
        c.end + 1
    } else {
        c.end
    };
    let h = header_at(s, p, e);
    lemma_ordered_widen(i.errors, n, i.end, e, p, i.end);
    if i.broken {
    } else if c.bad {
        lemma_ordered_push(
            i.errors,
            error_event(ErrorKind::MalformedHeader, c.end, next_within(c.end, e)),
            p,
            i.end,
            h.end,
            e,
        );
    } else if 0 <= q < e && !is_header_stop(s[q]) {
        lemma_run_end(s, q, e, ByteClass::Solid);
        let kind = if suffix is Some {
            ErrorKind::UnexpectedCharacter
        } else if q == p {
            ErrorKind::MalformedHeader
        } else {
            ErrorKind::UnknownSuffix
        };
        lemma_ordered_push(i.errors, error_event(kind, q, q + 1), p, i.end, h.end, e);
    } else {
        lemma_ordered_widen(i.errors, p, i.end, e, p, h.end);
    }
}

/// Pending text lies over `[a, b)`.
pub proof fn lemma_text_events_order(s: Seq<u8>, a: int, b: int)
    requires
        0 <= a <= b <= s.len() <= u32::MAX,
    ensures
        ordered_in(text_events(s, a, b), a, a, b),
{
}

/// Where a step's events may start: up to the text still pending after it,
/// or anywhere in the segment when the step is the last one.
pub open spec fn step_limit(step: StepView, e: int) -> int {
    if step.done {
        e
    } else {
        step.pending
    }
}

/// A step's events lie in the segment, in order, and none starts after the
/// text that is still pending.
pub open spec fn step_ordered(step: StepView, i: int, e: int, pending: int) -> bool {
    &&& ordered_in(step.events, pending, step_limit(step, e), e)
    &&& !step.done ==> i < step.next <= e && pending <= step.pending <= step.next
}

proof fn lemma_unterminated_order(s: Seq<u8>, i: int, e: int, pending: int)
    requires
        0 <= pending <= i < e <= s.len() <= u32::MAX,
    ensures
        step_ordered(unterminated(s, i, e, pending), i, e, pending),
{
    lemma_text_events_order(s, pending, i);
    let text = text_events(s, pending, i);
    assert(ordered_in(text, pending, pending, e));
    lemma_ordered_push(text, error_event(ErrorKind::UnterminatedInline, i, e), pending, pending, i, e);
    lemma_ordered_push(
        text.push(error_event(ErrorKind::UnterminatedInline, i, e)),
        EventView::Text { content: s.subrange(i, e), span: span_of(i, e) },
        pending,
        i,
        e,
        e,
    );
}

proof fn lemma_construct_order(
    s: Seq<u8>,
    i: int,
    e: int,
    pending: int,
    event: EventView,
    next: int,
)
    requires
        0 <= pending <= i < next <= e <= s.len() <= u32::MAX,
        start_of(event) == i,
        i <= end_of(event) <= e,
    ensures
        step_ordered(construct(s, i, pending, event, next), i, e, pending),
{
    lemma_text_events_order(s, pending, i);
    let text = text_events(s, pending, i);
    assert(ordered_in(text, pending, pending, e));
    lemma_ordered_push(text, event, pending, pending, next, e);
}

proof fn lemma_interpolation_step_order(s: Seq<u8>, i: int, e: int, pending: int)
    requires
        0 <= pending <= i,
        i + 1 < e <= s.len() <= u32::MAX,
    ensures
        step_ordered(interpolation_step(s, i, e, pending), i, e, pending),
{
    let c = brace_close(s, i + 2, e, 0, false);
    lemma_brace_close(s, i + 2, e, 0, false);
    if c < e {
        lemma_construct_order(
            s,
            i,
            e,
            pending,
            EventView::Interpolation { expression: s.subrange(i + 2, c), span: span_of(i, c + 1) },
            c + 1,
        );
    } else {
        lemma_unterminated_order(s, i, e, pending);
    }
}

proof fn lemma_directive_step_order(s: Seq<u8>, i: int, e: int, pending: int)
    requires
        0 <= pending <= i,
        i + 1 < e <= s.len() <= u32::MAX,
    ensures
        step_ordered(directive_step(s, i, e, pending), i, e, pending),
{
    let n = directive_name(s, i + 1, e);
    lemma_directive_name_bounds(s, i + 1, e);
    if n.end < e && s[n.end] == LBRACE {
        let c = brace_close(s, n.end + 1, e, 0, false);
        lemma_brace_close(s, n.end + 1, e, 0, false);
        if c < e {
            lemma_construct_order(
                s,
                i,
                e,
                pending,
                EventView::InlineDirective {
                    name: n.name,
                    namespace: n.namespace,
                    is_raw: n.is_raw,
                    content: s.subrange(n.end + 1, c),
                    span: span_of(i, c + 1),
                },
                c + 1,
            );
        } else {
            lemma_unterminated_order(s, i, e, pending);
        }
    } else {
        assert(ordered_in(Seq::<EventView>::empty(), pending, pending, e));
    }
}

proof fn lemma_reference_step_order(s: Seq<u8>, i: int, e: int, pending: int)
    requires
        0 <= pending <= i,
        i + 1 < e <= s.len() <= u32::MAX,
    ensures
        step_ordered(reference_step(s, i, e, pending), i, e, pending),
{
    let r = run_end(s, i + 2, e, ByteClass::Ident);
    lemma_run_end(s, i + 2, e, ByteClass::Ident);
    if r < e && s[r] == RBRACKET {
        lemma_construct_order(
            s,
            i,
            e,
            pending,
            EventView::IdReference { id: s.subrange(i + 2, r), span: span_of(i, r + 1) },
            r + 1,
        );
    } else {
        lemma_text_events_order(s, pending, i);
        let text = text_events(s, pending, i);
        assert(ordered_in(text, pending, pending, e));
        lemma_ordered_push(text, error_event(ErrorKind::MissingBracket, i, r), pending, pending, i, e);
    }
}

proof fn lemma_embedded_step_order(s: Seq<u8>, i: int, e: int, pending: int)
    requires
        0 <= pending <= i,
        i + 1 < e <= s.len() <= u32::MAX,
    ensures
        step_ordered(embedded_step(s, i, e, pending), i, e, pending),
    decreases e - i, 0nat,
{
    let c = brace_close(s, i + 2, e, 0, false);
    lemma_brace_close(s, i + 2, e, 0, false);
    let h = header_at(s, i + 2, c);
    let b = run_end(s, h.end, c, ByteClass::Blank);
    if c < e {
        lemma_header_at_order(s, i + 2, c);
        lemma_run_end(s, h.end, c, ByteClass::Blank);
        lemma_inline_events_order(s, b, c, b);
        lemma_text_events_order(s, pending, i);
        let text = text_events(s, pending, i);
        let start = EventView::EmbeddedStart {
            name: h.name,
            id: h.id,
            classes: h.classes,
            span: span_of(i, h.end),
        };
        let inner = inline_events(s, b, c, b);
        let close = EventView::EmbeddedEnd { span: span_of(c, c + 1) };
        assert(ordered_in(text, pending, pending, e));
        lemma_ordered_push(text, start, pending, pending, i, e);
        assert(ordered_in(h.errors, i + 2, h.end, e));
        lemma_ordered_widen(h.errors, i + 2, h.end, e, i, h.end);
        lemma_ordered_add(text.push(start), h.errors, pending, i, h.end, e);
        assert(ordered_in(inner, b, c, e));
        lemma_ordered_push(inner, close, b, c, c, e);
        lemma_ordered_widen(inner.push(close), b, c, e, h.end, c + 1);
        lemma_ordered_widen(text.push(start) + h.errors, pending, h.end, e, pending, h.end);
        lemma_ordered_add(text.push(start) + h.errors, inner.push(close), pending, h.end, c + 1, e);
    } else {
        lemma_unterminated_order(s, i, e, pending);
    }
}

/// The events of one construct lie in the segment, in order.
pub proof fn lemma_construct_at_order(s: Seq<u8>, i: int, e: int, pending: int)
    requires
        0 <= pending <= i <= e <= s.len() <= u32::MAX,
    ensures
        step_ordered(construct_at(s, i, e, pending), i, e, pending),
    decreases e - i, 1nat,
{
    lemma_text_events_order(s, pending, i);
    let text = text_events(s, pending, i);
    assert(ordered_in(text, pending, pending, e));
    assert(ordered_in(Seq::<EventView>::empty(), pending, pending, e));
    if i < e {
        if s[i] == SEMICOLON {
            lemma_ordered_push(
                text,
                EventView::Comment { content: s.subrange(i + 1, e), span: span_of(i, e) },
                pending,
                pending,
                e,
                e,
            );
        } else if s[i] == BANG && i + 1 < e && s[i + 1] == LBRACE {
            lemma_interpolation_step_order(s, i, e, pending);
        } else if s[i] == BANG && i + 1 < e && is_ident_start(s[i + 1]) {
            lemma_directive_step_order(s, i, e, pending);
        } else if s[i] == BAR && i + 1 < e && s[i + 1] == LBRACE {
            lemma_embedded_step_order(s, i, e, pending);
        } else if s[i] == AT && i + 1 < e && s[i + 1] == LBRACKET {
            lemma_reference_step_order(s, i, e, pending);
        } else if s[i] == APOSTROPHE && i + 1 < e && is_escapable(s[i + 1]) {
            lemma_ordered_widen(text, pending, pending, e, pending, i + 1);
        }
    } else {
        lemma_ordered_widen(text, pending, pending, e, pending, e);
    }
}

/// The events of a segment lie in it, in order, from the pending text on.
pub proof fn lemma_inline_events_order(s: Seq<u8>, i: int, e: int, pending: int)
    requires
        0 <= pending <= i <= e <= s.len() <= u32::MAX,
    ensures
        ordered_in(inline_events(s, i, e, pending), pending, e, e),
    decreases e - i, 2nat,
{
    let step = construct_at(s, i, e, pending);
    lemma_construct_at_order(s, i, e, pending);
    if !step.done {
        lemma_inline_events_order(s, step.next, e, step.pending);
        lemma_ordered_add(
            step.events,
            inline_events(s, step.next, e, step.pending),
            pending,
            step.pending,
            e,
            e,
        );
    }
}

/// The events of an attribute start inside it, in order.
pub proof fn lemma_attribute_at_order(s: Seq<u8>, k: int, e: int)
    requires
        0 <= k < e <= s.len() <= u32::MAX,
    ensures
        ordered_in(attribute_at(s, k, e).events, k, attribute_at(s, k, e).end, e),
        k < attribute_at(s, k, e).end <= e,
{
    lemma_attribute_at_bounds(s, k, e);
    let a = attribute_at(s, k, e);
    if k + 1 < e && s[k + 1] == LBRACKET {
        let r = run_end(s, k + 2, e, ByteClass::Ident);
        lemma_run_end(s, k + 2, e, ByteClass::Ident);
        lemma_run_end(s, r, e, ByteClass::Solid);
        assert(a == merge_at(s, k, e));
        assert(ordered_in(a.events, k, a.end, e));
    } else if k + 1 < e && is_ident_start(s[k + 1]) {
        let key_end = run_end(s, k + 1, e, ByteClass::Ident);
        lemma_run_end(s, k + 1, e, ByteClass::Ident);
        let start = run_end(s, key_end, e, ByteClass::Blank);
        lemma_run_end(s, key_end, e, ByteClass::Blank);
        let v = value_at(s, start, e, false);
        lemma_value_at_bounds(s, start, e, false);
        lemma_value_at_order(s, start, e, false);
        let head = seq![
            EventView::Attribute {
                key: s.subrange(k + 1, key_end),
                value: v.value,
                span: span_of(k, a.end),
            },
        ];
        assert(ordered_in(head, k, k, e));
        if v.value is Some {
            lemma_ordered_widen(v.errors, start, v.end, v.end, k, v.end);
            assert(ordered_in(v.errors, k, v.end, e));
            lemma_ordered_add(head, v.errors, k, k, v.end, e);
        } else {
            assert(v.end == start);
            lemma_ordered_widen(v.errors, start, v.end, v.end, k, start);
            assert(ordered_in(v.errors, k, start, e));
            lemma_ordered_add(head, v.errors, k, k, start, e);
            assert(v.errors.len() == 0) by {
                lemma_no_value_no_errors(s, start, e, false);
            }
            assert(head + v.errors =~= head);
            lemma_ordered_widen(head, k, k, e, k, a.end);
        }
        assert(a == keyed_at(s, k, e));
    } else {
        lemma_run_end(s, k + 1, e, ByteClass::Solid);
        assert(ordered_in(a.events, k, a.end, e));
    }
}

/// Where no value starts, the value scanner reports nothing.
pub proof fn lemma_no_value_no_errors(s: Seq<u8>, i: int, e: int, bracketed: bool)
    requires
        0 <= i <= e <= s.len(),
        value_at(s, i, e, bracketed).value is None,
    ensures
        value_at(s, i, e, bracketed).errors.len() == 0,
{
    if i < e && s[i] != QUOTE && s[i] != LBRACKET {
        let t = token_end(s, i, e, bracketed);
        lemma_token_end(s, i, e, bracketed);
        if t > i {
            assert(bare_value(s, i, t).value is Some);
        }
    }
}

/// The events of an element header start inside it, in order.
pub proof fn lemma_element_events_order(s: Seq<u8>, k: int, e: int)
    requires
        0 <= k < e <= s.len() <= u32::MAX,
    ensures
        ordered_in(element_events(s, k, e), k, header_at(s, k + 1, e).end, e),
        k < header_at(s, k + 1, e).end <= e,
{
    let h = header_at(s, k + 1, e);
    lemma_header_at_order(s, k + 1, e);
    let head = seq![element_start(h, k)];
    assert(ordered_in(head, k, k, e));
    lemma_ordered_widen(h.errors, k + 1, h.end, e, k, h.end);
    lemma_ordered_add(head, h.errors, k, k, h.end, e);
}

/// Element ends at one offset are in order.
pub proof fn lemma_closers_order(depth: nat, at: int, len: int)
    requires
        0 <= at <= len <= u32::MAX,
    ensures
        ordered_in(closers(depth, at), at, at, len),
{
}

/// The events of the rest of a line lie in it, in order.
pub proof fn lemma_tail_events_order(s: Seq<u8>, q: int, e: int, depth: nat)
    requires
        0 <= q <= e <= s.len() <= u32::MAX,
    ensures
        ordered_in(tail_events(s, q, e, depth), q, e, e),
    decreases e - q,
{
    let k = run_end(s, q, e, ByteClass::Blank);
    lemma_run_end(s, q, e, ByteClass::Blank);
    lemma_closers_order(depth, e, e);
    lemma_ordered_widen(closers(depth, e), e, e, e, q, e);
    if k < e {
        if starts_element(s, k, e) {
            let end = header_at(s, k + 1, e).end;
            lemma_element_events_order(s, k, e);
            lemma_tail_events_order(s, end, e, depth + 1);
            lemma_ordered_widen(element_events(s, k, e), k, end, e, q, end);
            lemma_ordered_add(
                element_events(s, k, e),
                tail_events(s, end, e, depth + 1),
                q,
                end,
                e,
                e,
            );
        } else if s[k] == COLON {
            let a = attribute_at(s, k, e);
            lemma_attribute_at_order(s, k, e);
            lemma_tail_events_order(s, a.end, e, depth);
            lemma_ordered_widen(a.events, k, a.end, e, q, a.end);
            lemma_ordered_add(a.events, tail_events(s, a.end, e, depth), q, a.end, e, e);
        } else {
            lemma_inline_events_order(s, k, e, k);
            lemma_ordered_widen(inline_events(s, k, e, k), k, e, e, q, e);
            lemma_ordered_add(inline_events(s, k, e, k), closers(depth, e), q, e, e, e);
        }
    }
}

/// End events at one offset are in order.
pub proof fn lemma_close_events_order(frames: Seq<Frame>, keep: nat, at: int, len: int)
    requires
        0 <= at <= len <= u32::MAX,
    ensures
        ordered_in(close_events(frames, keep, at), at, at, len),
    decreases frames.len(),
{
    if frames.len() > keep {
        lemma_close_events_order(frames.drop_last(), keep, at, len);
        let head = seq![end_event(frames.last().kind, at)];
        assert(ordered_in(head, at, at, len));
        lemma_ordered_add(head, close_events(frames.drop_last(), keep, at), at, at, at, len);
    }
}

/// What a line's indentation causes lies over the indentation, in order.
pub proof fn lemma_dedent_events_order(s: Seq<u8>, frames: Seq<Frame>, p: int, c: int)
    requires
        0 <= p <= c <= s.len() <= u32::MAX,
    ensures
        ordered_in(dedent_events(s, frames, p, c), p, c, s.len() as int),
{
    let d = dedent_of(s, frames, p, c);
    let len = s.len() as int;
    lemma_close_events_order(frames, d.keep, c, len);
    let closing = close_events(frames, d.keep, c);
    if d.clash {
        let head = seq![error_event(ErrorKind::InconsistentIndentation, p, c)];
        assert(ordered_in(head, p, p, len));
        lemma_ordered_widen(closing, c, c, len, p, c);
        lemma_ordered_add(head, closing, p, p, c, len);
    } else {
        lemma_ordered_widen(closing, c, c, len, p, c);
    }
}

proof fn lemma_freeform_order(s: Seq<u8>, c: int, e: int)
    requires
        0 <= c <= e <= s.len() <= u32::MAX,
    ensures
        ordered_in(freeform_events(s, c, e), c, freeform_next(s, e), s.len() as int),
        e <= freeform_next(s, e) <= s.len(),
{
    let len = s.len() as int;
    let b = next_line(s, e);
    let f = fence_line(s, b);
    lemma_fence_line_bounds(s, b);
    let next = freeform_next(s, e);
    if f < len {
        lemma_line_bounds(s, f);
        lemma_run_end(s, f, line_end(s, f), ByteClass::Blank);
    }
    let start = EventView::FreeformStart { span: span_of(c, e) };
    let close = freeform_end(s, f);
    assert(ordered_in(seq![start], c, c, len));
    if b < f {
        let raw = EventView::RawContent { content: s.subrange(b, f), span: span_of(b, f) };
        lemma_ordered_push(seq![start], raw, c, c, b, len);
        lemma_ordered_push(seq![start].push(raw), close, c, b, next, len);
        assert(freeform_events(s, c, e) =~= seq![start].push(raw).push(close));
    } else {
        lemma_ordered_push(seq![start], close, c, c, next, len);
        assert(freeform_events(s, c, e) =~= seq![start].push(close));
    }
}

proof fn lemma_raw_order(s: Seq<u8>, p: int, c: int, e: int)
    requires
        0 <= p <= c,
        c + 1 < e <= s.len() <= u32::MAX,
    ensures
        ordered_in(
            raw_events(s, p, c, e),
            c,
            raw_body(s, next_line(s, e), p, c, None, e).next,
            s.len() as int,
        ),
        e <= raw_body(s, next_line(s, e), p, c, None, e).next <= s.len(),
{
    let len = s.len() as int;
    let r = raw_body(s, next_line(s, e), p, c, None, e);
    lemma_raw_body_bounds(s, next_line(s, e), p, c, None, e, e);
    let n = directive_name(s, c + 1, e);
    lemma_directive_name_bounds(s, c + 1, e);
    let start = directive_start(n, c);
    let close = EventView::DirectiveEnd { span: span_of(r.last, r.last) };
    assert(ordered_in(seq![start], c, c, len));
    match r.first {
        Some(f) => {
            let raw = EventView::RawContent { content: s.subrange(f, r.last), span: span_of(f, r.last) };
            lemma_ordered_push(seq![start], raw, c, c, f, len);
            lemma_ordered_push(seq![start].push(raw), close, c, f, r.next, len);
            assert(raw_events(s, p, c, e) =~= seq![start].push(raw).push(close));
        },
        None => {
            lemma_ordered_push(seq![start], close, c, c, r.next, len);
            assert(raw_events(s, p, c, e) =~= seq![start].push(close));
        },
    }
}

proof fn lemma_directive_order(s: Seq<u8>, c: int, e: int)
    requires
        0 <= c,
        c + 1 < e <= s.len() <= u32::MAX,
    ensures
        ordered_in(directive_events(s, c, e), c, e, s.len() as int),
{
    let len = s.len() as int;
    let n = directive_name(s, c + 1, e);
    lemma_directive_name_bounds(s, c + 1, e);
    let b = run_end(s, n.end, e, ByteClass::Blank);
    lemma_run_end(s, n.end, e, ByteClass::Blank);
    lemma_inline_events_order(s, b, e, b);
    let head = seq![directive_start(n, c)];
    assert(ordered_in(head, c, c, len));
    let inner = inline_events(s, b, e, b);
    lemma_ordered_widen(inner, b, e, e, c, e);
    assert(ordered_in(inner, c, e, len));
    lemma_ordered_add(head, inner, c, c, e, len);
}

/// The events of a block start at or after its first byte and before the
/// line at which parsing resumes, in order.
pub proof fn lemma_block_at_order(s: Seq<u8>, p: int, c: int, e: int, frames: Seq<Frame>)
    requires
        0 <= p <= c < e <= s.len() <= u32::MAX,
        e == line_end(s, p),
    ensures
        ordered_in(
            block_at(s, p, c, e, frames).events,
            c,
            block_at(s, p, c, e, frames).next,
            s.len() as int,
        ),
        e <= block_at(s, p, c, e, frames).next <= s.len(),
{
    reveal(block_at);
    let len = s.len() as int;
    let block = block_at(s, p, c, e, frames);
    lemma_block_at_bounds(s, p, c, e, frames);
    if is_fence(s, c, e) {
        lemma_freeform_order(s, c, e);
    } else if is_block_directive(s, c, e) {
        if directive_name(s, c + 1, e).is_raw {
            lemma_raw_order(s, p, c, e);
        } else {
            lemma_directive_order(s, c, e);
            lemma_ordered_widen(directive_events(s, c, e), c, e, len, c, block.next);
        }
    } else if starts_element(s, c, e) {
        let end = header_at(s, c + 1, e).end;
        lemma_element_events_order(s, c, e);
        lemma_tail_events_order(s, end, e, 0);
        assert(ordered_in(element_events(s, c, e), c, end, len));
        assert(ordered_in(tail_events(s, end, e, 0), end, e, len));
        lemma_ordered_add(element_events(s, c, e), tail_events(s, end, e, 0), c, end, e, len);
        lemma_ordered_widen(block.events, c, e, len, c, block.next);
    } else if s[c] == COLON {
        lemma_tail_events_order(s, c, e, 0);
        assert(ordered_in(tail_events(s, c, e, 0), c, e, len));
        lemma_ordered_widen(block.events, c, e, len, c, block.next);
    } else {
        lemma_inline_events_order(s, c, e, c);
        assert(ordered_in(inline_events(s, c, e, c), c, e, len));
        lemma_ordered_widen(block.events, c, e, len, c, block.next);
    }
}

/// Parsing resumes after the line it has just read, inside the buffer.
pub proof fn lemma_line_at_next(s: Seq<u8>, p: int, frames: Seq<Frame>)
    requires
        0 <= p < s.len(),
    ensures
        p < line_at(s, p, frames).next <= s.len(),
{
    lemma_line_bounds(s, p);
    let e = line_end(s, p);
    let c = run_end(s, p, e, ByteClass::Blank);
    lemma_run_end(s, p, e, ByteClass::Blank);
    if c < e {
        lemma_block_at_bounds(s, p, c, e, frames.take(dedent_of(s, frames, p, c).keep as int));
    }
}

/// The events of a line start at or after its first byte and before the
/// line at which parsing resumes, in order.
pub proof fn lemma_line_at_order(s: Seq<u8>, p: int, frames: Seq<Frame>)
    requires
        0 <= p < s.len() <= u32::MAX,
    ensures
        ordered_in(line_at(s, p, frames).events, p, line_at(s, p, frames).next, s.len() as int),
        p < line_at(s, p, frames).next <= s.len(),
{
    let len = s.len() as int;
    lemma_line_bounds(s, p);
    let e = line_end(s, p);
    let c = run_end(s, p, e, ByteClass::Blank);
    lemma_run_end(s, p, e, ByteClass::Blank);
    if c < e {
        let kept = frames.take(dedent_of(s, frames, p, c).keep as int);
        let block = block_at(s, p, c, e, kept);
        lemma_dedent_events_order(s, frames, p, c);
        lemma_block_at_order(s, p, c, e, kept);
        lemma_ordered_add(dedent_events(s, frames, p, c), block.events, p, c, block.next, len);
    }
}

/// The events of the buffer from a line on start at or after it, in order.
pub proof fn lemma_events_from_order(s: Seq<u8>, p: int, frames: Seq<Frame>)
    requires
        0 <= p <= s.len() <= u32::MAX,
    ensures
        ordered_in(events_from(s, p, frames), p, s.len() as int, s.len() as int),
    decreases s.len() - p,
{
    let len = s.len() as int;
    if p < len {
        let line = line_at(s, p, frames);
        lemma_line_at_order(s, p, frames);
        lemma_events_from_order(s, line.next, line.frames);
        lemma_ordered_add(line.events, events_from(s, line.next, line.frames), p, line.next, len, len);
    } else {
        lemma_close_events_order(frames, 0, len, len);
    }
}

/// Every span is ordered and lies inside a buffer of `len` bytes.
pub open spec fn spans_within(events: Seq<EventView>, len: int) -> bool {
    forall|i: int| 0 <= i < events.len() ==> (#[trigger] events[i]).span().within(len)
}

/// No event starts before an earlier one.
pub open spec fn starts_ordered(events: Seq<EventView>) -> bool {
    forall|i: int, j: int|
        0 <= i < j < events.len() ==> (#[trigger] events[i]).span().start <= (
        #[trigger] events[j]).span().start
}

/// Every span of a parse lies inside the buffer: `0 <= start <= end <=
/// len`, for a buffer within the 4 GiB that spans can address.
pub proof fn lemma_spans_within(s: Seq<u8>)
    requires
        s.len() <= u32::MAX,
    ensures
        spans_within(document_events(s), s.len() as int),
{
    lemma_events_from_order(s, 0, Seq::empty());
    let events = document_events(s);
    assert forall|i: int| 0 <= i < events.len() implies (#[trigger] events[i]).span().within(
        s.len() as int,
    ) by {
        assert(start_of(events[i]) <= end_of(events[i]) <= s.len());
    }
}

/// Events come in document order: no event of a parse starts before an
/// earlier one, for a buffer within the 4 GiB that spans can address. An
/// end event caused by a dedent shares its offset with the start of the
/// block that follows it.
pub proof fn lemma_starts_ordered(s: Seq<u8>)
    requires
        s.len() <= u32::MAX,
    ensures
        starts_ordered(document_events(s)),
{
    lemma_events_from_order(s, 0, Seq::empty());
    let events = document_events(s);
    assert forall|i: int, j: int| 0 <= i < j < events.len() implies (#[trigger] events[i]).span().start
        <= (#[trigger] events[j]).span().start by {
        assert(start_of(events[i]) <= start_of(events[j]));
    }
}

} // verus!
