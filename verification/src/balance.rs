//! Start and end events balance: whatever a parse opens, it closes.

use vstd::prelude::*;
use crate::attribute::{attribute_at, lemma_attribute_at_bounds};
use crate::block::{
    block_at, directive_events, directive_start, freeform_events, is_block_directive, is_fence,
    lemma_line_bounds, line_end, raw_events,
};
use crate::event::{error_event, ErrorKind, EventView};
use crate::header::{header_at, id_at, lemma_header_at_bounds, name_end};
use crate::indent::{
    close_events, dedent_events, dedent_of, end_event, lemma_dedent_of_bounds, Frame, FrameKind,
};
use crate::inline::{
    construct_at, directive_name, embedded_step, inline_events, lemma_construct_at_bounds,
    lemma_directive_name_bounds, text_events, unterminated,
};
use crate::lex::{
    brace_close, is_ident_start, lemma_brace_close, lemma_run_end, run_end, ByteClass, AT, BANG,
    BAR, COLON, LBRACE, LBRACKET, QUOTE, RBRACKET, SEMICOLON,
};
use crate::line::{closers, element_events, starts_element, tail_events};
use crate::order::lemma_line_at_next;
use crate::parser::{document_events, events_from, line_at};
use crate::span::span_of;
use crate::values::{list_at, value_at};

verus! {

/// The pairs of start and end events.
pub enum Family {
    Element,
    Embedded,
    Directive,
    Freeform,
}

/// What an event does to the nesting depth of a family: a start adds one,
/// an end takes one away, anything else leaves it.
pub open spec fn delta(event: EventView, family: Family) -> int {
    match family {
        Family::Element => if event is ElementStart {
            1
        } else if event is ElementEnd {
            -1
        } else {
            0
        },
        Family::Embedded => if event is EmbeddedStart {
            1
        } else if event is EmbeddedEnd {
            -1
        } else {
            0
        },
        Family::Directive => if event is DirectiveStart {
            1
        } else if event is DirectiveEnd {
            -1
        } else {
            0
        },
        Family::Freeform => if event is FreeformStart {
            1
        } else if event is FreeformEnd {
            -1
        } else {
            0
        },
    }
}

/// The starts of a family among `events`, less its ends.
pub open spec fn nesting(events: Seq<EventView>, family: Family) -> int
    decreases events.len(),
{
    if events.len() == 0 {
        0
    } else {
        nesting(events.drop_last(), family) + delta(events.last(), family)
    }
}

/// The frames of a family among `frames`.
pub open spec fn held(frames: Seq<Frame>, family: Family) -> int
    decreases frames.len(),
{
    if frames.len() == 0 {
        0
    } else {
        held(frames.drop_last(), family) + if holds(frames.last().kind, family) {
            1int
        } else {
            0int
        }
    }
}

/// A frame of `kind` holds a block of `family` open.
pub open spec fn holds(kind: FrameKind, family: Family) -> bool {
    match kind {
        FrameKind::Element => family is Element,
        FrameKind::Directive => family is Directive,
    }
}

/// Every event is a diagnostic.
pub open spec fn all_errors(events: Seq<EventView>) -> bool {
    forall|i: int| 0 <= i < events.len() ==> #[trigger] events[i] is Error
}

/// The nesting of a concatenation is the sum of the nestings.
pub proof fn lemma_nesting_add(a: Seq<EventView>, b: Seq<EventView>, family: Family)
    ensures
        nesting(a + b, family) == nesting(a, family) + nesting(b, family),
    decreases b.len(),
{
    if b.len() == 0 {
        assert(a + b =~= a);
    } else {
        lemma_nesting_add(a, b.drop_last(), family);
        assert((a + b).drop_last() =~= a + b.drop_last());
        assert((a + b).last() == b.last());
    }
}

/// One more event changes the nesting by its delta.
pub proof fn lemma_nesting_push(a: Seq<EventView>, event: EventView, family: Family)
    ensures
        nesting(a.push(event), family) == nesting(a, family) + delta(event, family),
{
    assert(a.push(event).drop_last() =~= a);
}

/// A single event's nesting is its delta.
pub proof fn lemma_nesting_one(event: EventView, family: Family)
    ensures
        nesting(seq![event], family) == delta(event, family),
{
    assert(seq![event].drop_last() =~= Seq::<EventView>::empty());
    assert(nesting(Seq::<EventView>::empty(), family) == 0);
}

/// Diagnostics open and close nothing.
pub proof fn lemma_errors_nesting(events: Seq<EventView>, family: Family)
    requires
        all_errors(events),
    ensures
        nesting(events, family) == 0,
    decreases events.len(),
{
    if events.len() > 0 {
        assert(events.last() == events[events.len() - 1]);
        assert(all_errors(events.drop_last())) by {
            let rest = events.drop_last();
            assert forall|i: int| 0 <= i < rest.len() implies #[trigger] rest[i] is Error by {
                assert(rest[i] == events[i]);
            }
        }
        lemma_errors_nesting(events.drop_last(), family);
    }
}

/// Diagnostics followed by diagnostics are diagnostics.
pub proof fn lemma_all_errors_add(a: Seq<EventView>, b: Seq<EventView>)
    requires
        all_errors(a),
        all_errors(b),
    ensures
        all_errors(a + b),
{
    assert forall|i: int| 0 <= i < (a + b).len() implies #[trigger] (a + b)[i] is Error by {
        if i < a.len() {
            assert((a + b)[i] == a[i]);
        } else {
            assert((a + b)[i] == b[i - a.len()]);
        }
    }
}

/// The value scanner yields only diagnostics beside its value.
pub proof fn lemma_value_at_errors(s: Seq<u8>, i: int, e: int, bracketed: bool)
    ensures
        all_errors(value_at(s, i, e, bracketed).errors),
    decreases e - i, 0nat,
{
    if 0 <= i < e <= s.len() {
        if s[i] == QUOTE {
        } else if s[i] == LBRACKET {
            lemma_list_at_errors(s, i + 1, e);
        } else {
        }
    }
}

/// The list scanner yields only diagnostics beside its items.
pub proof fn lemma_list_at_errors(s: Seq<u8>, j: int, e: int)
    ensures
        all_errors(list_at(s, j, e).errors),
    decreases e - j, 1nat,
{
    let k = run_end(s, j, e, ByteClass::Blank);
    if 0 <= j <= e <= s.len() && k < e && s[k] != RBRACKET {
        lemma_run_end(s, j, e, ByteClass::Blank);
        let v = value_at(s, k, e, true);
        if k < v.end <= e && v.value is Some {
            lemma_value_at_errors(s, k, e, true);
            lemma_list_at_errors(s, v.end, e);
            lemma_all_errors_add(v.errors, list_at(s, v.end, e).errors);
        }
    }
}

/// The header parser yields only diagnostics beside its header.
pub proof fn lemma_header_at_errors(s: Seq<u8>, p: int, e: int)
    ensures
        all_errors(header_at(s, p, e).errors),
{
    let n = name_end(s, p, e);
    if 0 <= n < e <= s.len() && s[n] == LBRACKET {
        lemma_value_at_errors(s, n + 1, e, true);
    }
    assert(all_errors(id_at(s, n, e).errors));
}

/// Pending text opens and closes nothing.
pub proof fn lemma_text_events_nesting(s: Seq<u8>, a: int, b: int, family: Family)
    ensures
        nesting(text_events(s, a, b), family) == 0,
{
    if a < b {
        lemma_nesting_one(text_events(s, a, b)[0], family);
        assert(text_events(s, a, b) =~= seq![text_events(s, a, b)[0]]);
    }
}

/// The pending text and one event: the nesting is the event's delta.
proof fn lemma_text_push_nesting(s: Seq<u8>, a: int, b: int, event: EventView, family: Family)
    ensures
        nesting(text_events(s, a, b).push(event), family) == delta(event, family),
{
    lemma_text_events_nesting(s, a, b, family);
    lemma_nesting_push(text_events(s, a, b), event, family);
}

/// An embedded element closes what it opens.
pub proof fn lemma_embedded_step_nesting(s: Seq<u8>, i: int, e: int, pending: int, family: Family)
    requires
        0 <= pending <= i,
        i + 1 < e <= s.len(),
    ensures
        nesting(embedded_step(s, i, e, pending).events, family) == 0,
    decreases e - i, 0nat,
{
    let c = brace_close(s, i + 2, e, 0, false);
    lemma_brace_close(s, i + 2, e, 0, false);
    let h = header_at(s, i + 2, c);
    let b = run_end(s, h.end, c, ByteClass::Blank);
    let text = text_events(s, pending, i);
    if c < e && i + 2 <= b <= c {
        lemma_header_at_bounds(s, i + 2, c);
        lemma_run_end(s, h.end, c, ByteClass::Blank);
        let start = embedded_step(s, i, e, pending).events[text.len() as int];
        let inner = inline_events(s, b, c, b);
        let close = EventView::EmbeddedEnd { span: span_of(c, c + 1) };
        lemma_inline_events_nesting(s, b, c, b, family);
        lemma_header_at_errors(s, i + 2, c);
        lemma_errors_nesting(h.errors, family);
        lemma_text_push_nesting(s, pending, i, start, family);
        lemma_nesting_push(inner, close, family);
        lemma_nesting_add(text.push(start), h.errors, family);
        lemma_nesting_add(text.push(start) + h.errors, inner.push(close), family);
    } else {
        lemma_unterminated_nesting(s, i, e, pending, family);
    }
}

proof fn lemma_unterminated_nesting(s: Seq<u8>, i: int, e: int, pending: int, family: Family)
    ensures
        nesting(unterminated(s, i, e, pending).events, family) == 0,
{
    let text = text_events(s, pending, i);
    let error = error_event(ErrorKind::UnterminatedInline, i, e);
    lemma_text_push_nesting(s, pending, i, error, family);
    lemma_nesting_push(
        text.push(error),
        EventView::Text { content: s.subrange(i, e), span: span_of(i, e) },
        family,
    );
}

/// One construct closes what it opens.
pub proof fn lemma_construct_at_nesting(s: Seq<u8>, i: int, e: int, pending: int, family: Family)
    requires
        0 <= pending <= i <= e <= s.len(),
    ensures
        nesting(construct_at(s, i, e, pending).events, family) == 0,
    decreases e - i, 1nat,
{
    let step = construct_at(s, i, e, pending);
    lemma_text_events_nesting(s, pending, i, family);
    assert(nesting(Seq::<EventView>::empty(), family) == 0);
    if i < e {
        if s[i] == SEMICOLON {
            lemma_text_push_nesting(s, pending, i, step.events.last(), family);
            assert(step.events =~= text_events(s, pending, i).push(step.events.last()));
        } else if s[i] == BANG && i + 1 < e && s[i + 1] == LBRACE {
            let c = brace_close(s, i + 2, e, 0, false);
            if c < e {
                lemma_text_push_nesting(s, pending, i, step.events.last(), family);
                assert(step.events =~= text_events(s, pending, i).push(step.events.last()));
            } else {
                lemma_unterminated_nesting(s, i, e, pending, family);
            }
        } else if s[i] == BANG && i + 1 < e && is_ident_start(s[i + 1]) {
            let n = directive_name(s, i + 1, e);
            let c = brace_close(s, n.end + 1, e, 0, false);
            if 0 <= n.end < e && s[n.end] == LBRACE {
                if c < e {
                    lemma_text_push_nesting(s, pending, i, step.events.last(), family);
                    assert(step.events =~= text_events(s, pending, i).push(step.events.last()));
                } else {
                    lemma_unterminated_nesting(s, i, e, pending, family);
                }
            }
        } else if s[i] == BAR && i + 1 < e && s[i + 1] == LBRACE {
            lemma_embedded_step_nesting(s, i, e, pending, family);
        } else if s[i] == AT && i + 1 < e && s[i + 1] == LBRACKET {
            lemma_text_push_nesting(s, pending, i, step.events.last(), family);
            assert(step.events =~= text_events(s, pending, i).push(step.events.last()));
        }
    }
}

/// A segment closes what it opens.
pub proof fn lemma_inline_events_nesting(s: Seq<u8>, i: int, e: int, pending: int, family: Family)
    requires
        0 <= pending <= i <= e <= s.len(),
    ensures
        nesting(inline_events(s, i, e, pending), family) == 0,
    decreases e - i, 2nat,
{
    let step = construct_at(s, i, e, pending);
    lemma_construct_at_nesting(s, i, e, pending, family);
    lemma_construct_at_bounds(s, i, e, pending);
    if !step.done {
        lemma_inline_events_nesting(s, step.next, e, step.pending, family);
        lemma_nesting_add(step.events, inline_events(s, step.next, e, step.pending), family);
    }
}

/// One if `family` is the element family, zero otherwise.
pub open spec fn element_unit(family: Family) -> int {
    if family is Element {
        1
    } else {
        0
    }
}

/// An attribute opens and closes nothing.
pub proof fn lemma_attribute_at_nesting(s: Seq<u8>, k: int, e: int, family: Family)
    requires
        0 <= k < e <= s.len(),
    ensures
        nesting(attribute_at(s, k, e).events, family) == 0,
{
    let a = attribute_at(s, k, e);
    if k + 1 < e && s[k + 1] == LBRACKET {
        lemma_nesting_one(a.events[0], family);
        assert(a.events =~= seq![a.events[0]]);
    } else if k + 1 < e && is_ident_start(s[k + 1]) {
        let key_end = run_end(s, k + 1, e, ByteClass::Ident);
        let v = value_at(s, run_end(s, key_end, e, ByteClass::Blank), e, false);
        lemma_value_at_errors(s, run_end(s, key_end, e, ByteClass::Blank), e, false);
        lemma_errors_nesting(v.errors, family);
        lemma_nesting_one(a.events[0], family);
        lemma_nesting_add(seq![a.events[0]], v.errors, family);
        assert(a.events =~= seq![a.events[0]] + v.errors);
    } else {
        lemma_nesting_one(a.events[0], family);
        assert(a.events =~= seq![a.events[0]]);
    }
}

/// An element header opens one element.
pub proof fn lemma_element_events_nesting(s: Seq<u8>, k: int, e: int, family: Family)
    ensures
        nesting(element_events(s, k, e), family) == element_unit(family),
{
    let h = header_at(s, k + 1, e);
    lemma_header_at_errors(s, k + 1, e);
    lemma_errors_nesting(h.errors, family);
    lemma_nesting_one(element_events(s, k, e)[0], family);
    lemma_nesting_add(seq![element_events(s, k, e)[0]], h.errors, family);
    assert(element_events(s, k, e) =~= seq![element_events(s, k, e)[0]] + h.errors);
}

/// `depth` element ends close `depth` elements.
pub proof fn lemma_closers_nesting(depth: nat, at: int, family: Family)
    ensures
        nesting(closers(depth, at), family) == -depth * element_unit(family),
    decreases depth,
{
    if depth > 0 {
        lemma_closers_nesting((depth - 1) as nat, at, family);
        assert(closers(depth, at).drop_last() =~= closers((depth - 1) as nat, at));
        assert(-depth * element_unit(family) == -(depth - 1) * element_unit(family)
            - element_unit(family)) by (nonlinear_arith);
    }
}

/// The rest of a line closes the elements opened rightward on it.
pub proof fn lemma_tail_events_nesting(s: Seq<u8>, q: int, e: int, depth: nat, family: Family)
    requires
        0 <= q <= e <= s.len(),
    ensures
        nesting(tail_events(s, q, e, depth), family) == -depth * element_unit(family),
    decreases e - q,
{
    let k = run_end(s, q, e, ByteClass::Blank);
    lemma_run_end(s, q, e, ByteClass::Blank);
    lemma_closers_nesting(depth, e, family);
    if k < e {
        if starts_element(s, k, e) {
            let end = header_at(s, k + 1, e).end;
            lemma_header_at_bounds(s, k + 1, e);
            lemma_element_events_nesting(s, k, e, family);
            lemma_tail_events_nesting(s, end, e, depth + 1, family);
            lemma_nesting_add(element_events(s, k, e), tail_events(s, end, e, depth + 1), family);
            assert(-(depth + 1) * element_unit(family) == -depth * element_unit(family)
                - element_unit(family)) by (nonlinear_arith);
        } else if s[k] == COLON {
            let a = attribute_at(s, k, e);
            lemma_attribute_at_bounds(s, k, e);
            lemma_attribute_at_nesting(s, k, e, family);
            lemma_tail_events_nesting(s, a.end, e, depth, family);
            lemma_nesting_add(a.events, tail_events(s, a.end, e, depth), family);
        } else {
            lemma_inline_events_nesting(s, k, e, k, family);
            lemma_nesting_add(inline_events(s, k, e, k), closers(depth, e), family);
        }
    }
}

/// Closing frames closes what they hold open.
pub proof fn lemma_close_events_nesting(frames: Seq<Frame>, keep: nat, at: int, family: Family)
    requires
        keep <= frames.len(),
    ensures
        nesting(close_events(frames, keep, at), family) == held(frames.take(keep as int), family)
            - held(frames, family),
    decreases frames.len(),
{
    if frames.len() > keep {
        let rest = frames.drop_last();
        lemma_close_events_nesting(rest, keep, at, family);
        assert(rest.take(keep as int) =~= frames.take(keep as int));
        let head = seq![end_event(frames.last().kind, at)];
        lemma_nesting_one(head[0], family);
        lemma_nesting_add(head, close_events(rest, keep, at), family);
    } else {
        assert(frames.take(keep as int) =~= frames);
        assert(nesting(Seq::<EventView>::empty(), family) == 0);
    }
}

/// What a line's indentation causes closes the frames that it drops.
pub proof fn lemma_dedent_events_nesting(
    s: Seq<u8>,
    frames: Seq<Frame>,
    p: int,
    c: int,
    family: Family,
)
    ensures
        nesting(dedent_events(s, frames, p, c), family) == held(
            frames.take(dedent_of(s, frames, p, c).keep as int),
            family,
        ) - held(frames, family),
{
    let d = dedent_of(s, frames, p, c);
    lemma_dedent_of_bounds(s, frames, p, c);
    lemma_close_events_nesting(frames, d.keep, c, family);
    if d.clash {
        let head = seq![
            error_event(ErrorKind::InconsistentIndentation, p, c),
        ];
        lemma_nesting_one(head[0], family);
        lemma_nesting_add(head, close_events(frames, d.keep, c), family);
    }
}

/// One more frame holds one more block of its family open.
pub proof fn lemma_held_push(frames: Seq<Frame>, frame: Frame, family: Family)
    ensures
        held(frames.push(frame), family) == held(frames, family) + if holds(frame.kind, family) {
            1int
        } else {
            0int
        },
{
    assert(frames.push(frame).drop_last() =~= frames);
}

proof fn lemma_three_nesting(a: EventView, b: EventView, c: EventView, family: Family)
    ensures
        nesting(seq![a, b, c], family) == delta(a, family) + delta(b, family) + delta(c, family),
        nesting(seq![a, b], family) == delta(a, family) + delta(b, family),
{
    lemma_nesting_one(a, family);
    lemma_nesting_push(seq![a], b, family);
    lemma_nesting_push(seq![a, b], c, family);
    assert(seq![a].push(b) =~= seq![a, b]);
    assert(seq![a, b].push(c) =~= seq![a, b, c]);
}

/// A freeform block closes what it opens.
proof fn lemma_freeform_nesting(s: Seq<u8>, c: int, e: int, family: Family)
    ensures
        nesting(freeform_events(s, c, e), family) == 0,
{
    let ev = freeform_events(s, c, e);
    if ev.len() == 3 {
        lemma_three_nesting(ev[0], ev[1], ev[2], family);
        assert(ev =~= seq![ev[0], ev[1], ev[2]]);
    } else {
        lemma_three_nesting(ev[0], ev[1], ev[1], family);
        assert(ev =~= seq![ev[0], ev[1]]);
    }
}

/// A raw directive closes what it opens.
proof fn lemma_raw_nesting(s: Seq<u8>, p: int, c: int, e: int, family: Family)
    ensures
        nesting(raw_events(s, p, c, e), family) == 0,
{
    let ev = raw_events(s, p, c, e);
    if ev.len() == 3 {
        lemma_three_nesting(ev[0], ev[1], ev[2], family);
        assert(ev =~= seq![ev[0], ev[1], ev[2]]);
    } else {
        lemma_three_nesting(ev[0], ev[1], ev[1], family);
        assert(ev =~= seq![ev[0], ev[1]]);
    }
}

/// A directive line opens one directive.
proof fn lemma_directive_nesting(s: Seq<u8>, c: int, e: int, family: Family)
    requires
        0 <= c,
        c + 1 < e <= s.len(),
    ensures
        nesting(directive_events(s, c, e), family) == if family is Directive {
            1int
        } else {
            0int
        },
{
    let n = directive_name(s, c + 1, e);
    lemma_directive_name_bounds(s, c + 1, e);
    let b = run_end(s, n.end, e, ByteClass::Blank);
    lemma_run_end(s, n.end, e, ByteClass::Blank);
    lemma_inline_events_nesting(s, b, e, b, family);
    let head = seq![directive_start(n, c)];
    lemma_nesting_one(head[0], family);
    lemma_nesting_add(head, inline_events(s, b, e, b), family);
}

/// An element line opens one element.
proof fn lemma_element_line_nesting(s: Seq<u8>, c: int, e: int, family: Family)
    requires
        0 <= c < e <= s.len(),
    ensures
        nesting(
            element_events(s, c, e) + tail_events(s, header_at(s, c + 1, e).end, e, 0),
            family,
        ) == element_unit(family),
{
    let end = header_at(s, c + 1, e).end;
    lemma_header_at_bounds(s, c + 1, e);
    lemma_element_events_nesting(s, c, e, family);
    lemma_tail_events_nesting(s, end, e, 0, family);
    lemma_nesting_add(element_events(s, c, e), tail_events(s, end, e, 0), family);
}

/// A block's events open exactly what its frames hold open.
pub proof fn lemma_block_at_nesting(
    s: Seq<u8>,
    p: int,
    c: int,
    e: int,
    frames: Seq<Frame>,
    family: Family,
)
    requires
        0 <= p <= c < e <= s.len(),
    ensures
        nesting(block_at(s, p, c, e, frames).events, family) == held(
            block_at(s, p, c, e, frames).frames,
            family,
        ) - held(frames, family),
{
    reveal(block_at);
    if is_fence(s, c, e) {
        lemma_freeform_nesting(s, c, e, family);
    } else if is_block_directive(s, c, e) {
        if directive_name(s, c + 1, e).is_raw {
            lemma_raw_nesting(s, p, c, e, family);
        } else {
            lemma_directive_nesting(s, c, e, family);
            lemma_held_push(
                frames,
                Frame { start: p as usize, end: c as usize, kind: FrameKind::Directive },
                family,
            );
        }
    } else if starts_element(s, c, e) {
        lemma_element_line_nesting(s, c, e, family);
        lemma_held_push(
            frames,
            Frame { start: p as usize, end: c as usize, kind: FrameKind::Element },
            family,
        );
    } else if s[c] == COLON {
        lemma_tail_events_nesting(s, c, e, 0, family);
    } else {
        lemma_inline_events_nesting(s, c, e, c, family);
    }
}

/// A line's events open exactly what its frames hold open beyond those
/// held before it.
pub proof fn lemma_line_at_nesting(s: Seq<u8>, p: int, frames: Seq<Frame>, family: Family)
    requires
        0 <= p < s.len(),
    ensures
        nesting(line_at(s, p, frames).events, family) == held(line_at(s, p, frames).frames, family)
            - held(frames, family),
{
    lemma_line_bounds(s, p);
    let e = line_end(s, p);
    let c = run_end(s, p, e, ByteClass::Blank);
    lemma_run_end(s, p, e, ByteClass::Blank);
    if c < e {
        let kept = frames.take(dedent_of(s, frames, p, c).keep as int);
        let block = block_at(s, p, c, e, kept);
        lemma_dedent_events_nesting(s, frames, p, c, family);
        lemma_block_at_nesting(s, p, c, e, kept, family);
        lemma_nesting_add(dedent_events(s, frames, p, c), block.events, family);
    } else {
        assert(nesting(Seq::<EventView>::empty(), family) == 0);
    }
}

/// The rest of a buffer closes every frame that is open.
pub proof fn lemma_events_from_nesting(s: Seq<u8>, p: int, frames: Seq<Frame>, family: Family)
    requires
        0 <= p <= s.len(),
    ensures
        nesting(events_from(s, p, frames), family) == -held(frames, family),
    decreases s.len() - p,
{
    if p < s.len() {
        let line = line_at(s, p, frames);
        lemma_line_at_nesting(s, p, frames, family);
        if p < line.next <= s.len() {
            lemma_events_from_nesting(s, line.next, line.frames, family);
            lemma_nesting_add(line.events, events_from(s, line.next, line.frames), family);
        } else {
            lemma_line_at_next(s, p, frames);
        }
    } else {
        lemma_close_events_nesting(frames, 0, s.len() as int, family);
        assert(frames.take(0) =~= Seq::<Frame>::empty());
    }
}

/// Each family has as many starts as ends.
pub open spec fn balanced(events: Seq<EventView>) -> bool {
    forall|family: Family| #[trigger] nesting(events, family) == 0
}

/// Start and end events balance: in the events of any buffer, each family
/// (element, embedded, directive, freeform) has as many starts as ends.
/// This holds of every buffer, so of every prefix of one, whatever its
/// indentation and whether or not it ends with a newline: blocks still open
/// at the buffer's end are closed there.
pub proof fn lemma_balanced(s: Seq<u8>)
    ensures
        balanced(document_events(s)),
{
    assert forall|family: Family| #[trigger] nesting(document_events(s), family) == 0 by {
        lemma_events_from_nesting(s, 0, Seq::empty(), family);
    }
}

/// Cutting a buffer short leaves its events balanced: the events of any
/// prefix have as many starts as ends in each family.
pub proof fn lemma_prefix_balanced(s: Seq<u8>, n: int)
    requires
        0 <= n <= s.len(),
    ensures
        balanced(document_events(s.take(n))),
{
    lemma_balanced(s.take(n));
}

} // verus!
