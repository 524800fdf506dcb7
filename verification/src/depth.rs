//! No end before its start: at every point of a parse, each family has at
//! least as many starts behind it as ends.

use vstd::prelude::*;
use crate::attribute::{attribute_at, lemma_attribute_at_bounds};
use crate::balance::{
    all_errors, delta, element_unit, held, lemma_attribute_at_nesting, lemma_closers_nesting,
    lemma_construct_at_nesting, lemma_dedent_events_nesting, lemma_element_events_nesting,
    lemma_errors_nesting, lemma_header_at_errors, lemma_inline_events_nesting,
    lemma_line_at_nesting, lemma_nesting_add, lemma_nesting_one, lemma_nesting_push,
    lemma_text_events_nesting, lemma_value_at_errors, nesting, Family,
};
use crate::block::{
    block_at, directive_events, directive_start, freeform_events, is_block_directive, is_fence,
    lemma_line_bounds, line_end, raw_events,
};
use crate::event::{error_event, ErrorKind, EventView};
use crate::header::{header_at, lemma_header_at_bounds};
use crate::indent::{
    close_events, dedent_events, dedent_of, end_event, lemma_dedent_of_bounds, Frame,
};
use crate::inline::{
    construct_at, directive_name, embedded_step, inline_events, lemma_construct_at_bounds,
    lemma_directive_name_bounds, text_events, unterminated,
};
use crate::lex::{
    brace_close, is_ident_start, lemma_brace_close, lemma_run_end, run_end, ByteClass, AT, BANG,
    BAR, COLON, LBRACE, LBRACKET, SEMICOLON,
};
use crate::line::{closers, element_events, starts_element, tail_events};
use crate::order::lemma_line_at_next;
use crate::parser::{document_events, events_from, line_at};
use crate::span::span_of;
use crate::values::value_at;

verus! {

/// The lower of two numbers.
pub open spec fn lower(a: int, b: int) -> int {
    if a <= b {
        a
    } else {
        b
    }
}

/// The lowest nesting that a family reaches at any point of `events`:
/// zero before the first event, and after each event the starts so far less
/// the ends so far.
pub open spec fn floor(events: Seq<EventView>, family: Family) -> int
    decreases events.len(),
{
    if events.len() == 0 {
        0
    } else {
        lower(floor(events.drop_last(), family), nesting(events, family))
    }
}

/// The floor is at most zero and at most the final nesting.
pub proof fn lemma_floor_bounds(events: Seq<EventView>, family: Family)
    ensures
        floor(events, family) <= 0,
        floor(events, family) <= nesting(events, family),
    decreases events.len(),
{
    if events.len() > 0 {
        lemma_floor_bounds(events.drop_last(), family);
    }
}

/// The floor of a concatenation: the lower of the first part's floor and of
/// the second part's floor, counted from the first part's nesting.
pub proof fn lemma_floor_add(a: Seq<EventView>, b: Seq<EventView>, family: Family)
    ensures
        floor(a + b, family) == lower(floor(a, family), nesting(a, family) + floor(b, family)),
    decreases b.len(),
{
    lemma_floor_bounds(a, family);
    if b.len() == 0 {
        assert(a + b =~= a);
    } else {
        lemma_floor_add(a, b.drop_last(), family);
        assert((a + b).drop_last() =~= a + b.drop_last());
        lemma_nesting_add(a, b, family);
    }
}

/// One more event: the floor is the lower of the old floor and of the new
/// nesting.
pub proof fn lemma_floor_push(a: Seq<EventView>, event: EventView, family: Family)
    ensures
        floor(a.push(event), family) == lower(
            floor(a, family),
            nesting(a, family) + delta(event, family),
        ),
{
    assert(a.push(event).drop_last() =~= a);
    lemma_nesting_push(a, event, family);
}

/// A single event's floor is its delta, or zero for a start.
pub proof fn lemma_floor_one(event: EventView, family: Family)
    ensures
        floor(seq![event], family) == lower(0, delta(event, family)),
{
    lemma_floor_push(Seq::empty(), event, family);
    assert(Seq::<EventView>::empty().push(event) =~= seq![event]);
    assert(nesting(Seq::<EventView>::empty(), family) == 0);
}

/// Diagnostics never go below zero.
pub proof fn lemma_errors_floor(events: Seq<EventView>, family: Family)
    requires
        all_errors(events),
    ensures
        floor(events, family) == 0,
    decreases events.len(),
{
    if events.len() > 0 {
        assert(all_errors(events.drop_last())) by {
            let rest = events.drop_last();
            assert forall|i: int| 0 <= i < rest.len() implies #[trigger] rest[i] is Error by {
                assert(rest[i] == events[i]);
            }
        }
        lemma_errors_floor(events.drop_last(), family);
        lemma_errors_nesting(events, family);
    }
}

/// Pending text never goes below zero.
proof fn lemma_text_events_floor(s: Seq<u8>, a: int, b: int, family: Family)
    ensures
        floor(text_events(s, a, b), family) == 0,
{
    if a < b {
        lemma_floor_one(text_events(s, a, b)[0], family);
        assert(text_events(s, a, b) =~= seq![text_events(s, a, b)[0]]);
    }
}

/// The pending text and one event that is no end never go below zero.
proof fn lemma_text_push_floor(s: Seq<u8>, a: int, b: int, event: EventView, family: Family)
    requires
        delta(event, family) >= 0,
    ensures
        floor(text_events(s, a, b).push(event), family) == 0,
{
    lemma_text_events_floor(s, a, b, family);
    lemma_text_events_nesting(s, a, b, family);
    lemma_floor_push(text_events(s, a, b), event, family);
}

proof fn lemma_unterminated_floor(s: Seq<u8>, i: int, e: int, pending: int, family: Family)
    ensures
        floor(unterminated(s, i, e, pending).events, family) == 0,
{
    let text = text_events(s, pending, i);
    let error = error_event(ErrorKind::UnterminatedInline, i, e);
    lemma_text_push_floor(s, pending, i, error, family);
    lemma_text_events_nesting(s, pending, i, family);
    lemma_nesting_push(text, error, family);
    lemma_floor_push(
        text.push(error),
        EventView::Text { content: s.subrange(i, e), span: span_of(i, e) },
        family,
    );
}

/// An embedded element never goes below zero.
pub proof fn lemma_embedded_step_floor(s: Seq<u8>, i: int, e: int, pending: int, family: Family)
    requires
        0 <= pending <= i,
        i + 1 < e <= s.len(),
    ensures
        floor(embedded_step(s, i, e, pending).events, family) == 0,
    decreases e - i, 0nat,
{
    let c = brace_close(s, i + 2, e, 0, false);
    lemma_brace_close(s, i + 2, e, 0, false);
    let h = header_at(s, i + 2, c);
    let b = run_end(s, h.end, c, ByteClass::Blank);
    let text = text_events(s, pending, i);
    if c < e && i + 2 <= b <= c {
        lemma_header_at_bounds(s, i + 2, c);
        lemma_run_end(s, h.end, c, ByteClass::Blank);
        let start = embedded_step(s, i, e, pending).events[text.len() as int];
        let inner = inline_events(s, b, c, b);
        let close = EventView::EmbeddedEnd { span: span_of(c, c + 1) };
        let head = text.push(start) + h.errors;
        lemma_inline_events_floor(s, b, c, b, family);
        lemma_inline_events_nesting(s, b, c, b, family);
        lemma_header_at_errors(s, i + 2, c);
        lemma_errors_floor(h.errors, family);
        lemma_errors_nesting(h.errors, family);
        lemma_text_push_floor(s, pending, i, start, family);
        lemma_text_events_nesting(s, pending, i, family);
        lemma_nesting_push(text, start, family);
        lemma_floor_add(text.push(start), h.errors, family);
        lemma_nesting_add(text.push(start), h.errors, family);
        lemma_floor_push(inner, close, family);
        lemma_floor_add(head, inner.push(close), family);
    } else {
        lemma_unterminated_floor(s, i, e, pending, family);
    }
}

/// One construct never goes below zero.
pub proof fn lemma_construct_at_floor(s: Seq<u8>, i: int, e: int, pending: int, family: Family)
    requires
        0 <= pending <= i <= e <= s.len(),
    ensures
        floor(construct_at(s, i, e, pending).events, family) == 0,
    decreases e - i, 1nat,
{
    let step = construct_at(s, i, e, pending);
    lemma_text_events_floor(s, pending, i, family);
    if i < e {
        if s[i] == SEMICOLON {
            lemma_text_push_floor(s, pending, i, step.events.last(), family);
            assert(step.events =~= text_events(s, pending, i).push(step.events.last()));
        } else if s[i] == BANG && i + 1 < e && s[i + 1] == LBRACE {
            let c = brace_close(s, i + 2, e, 0, false);
            if c < e {
                lemma_text_push_floor(s, pending, i, step.events.last(), family);
                assert(step.events =~= text_events(s, pending, i).push(step.events.last()));
            } else {
                lemma_unterminated_floor(s, i, e, pending, family);
            }
        } else if s[i] == BANG && i + 1 < e && is_ident_start(s[i + 1]) {
            let n = directive_name(s, i + 1, e);
            let c = brace_close(s, n.end + 1, e, 0, false);
            if 0 <= n.end < e && s[n.end] == LBRACE {
                if c < e {
                    lemma_text_push_floor(s, pending, i, step.events.last(), family);
                    assert(step.events =~= text_events(s, pending, i).push(step.events.last()));
                } else {
                    lemma_unterminated_floor(s, i, e, pending, family);
                }
            }
        } else if s[i] == BAR && i + 1 < e && s[i + 1] == LBRACE {
            lemma_embedded_step_floor(s, i, e, pending, family);
        } else if s[i] == AT && i + 1 < e && s[i + 1] == LBRACKET {
            lemma_text_push_floor(s, pending, i, step.events.last(), family);
            assert(step.events =~= text_events(s, pending, i).push(step.events.last()));
        }
    }
}

/// A segment never goes below zero.
pub proof fn lemma_inline_events_floor(s: Seq<u8>, i: int, e: int, pending: int, family: Family)
    requires
        0 <= pending <= i <= e <= s.len(),
    ensures
        floor(inline_events(s, i, e, pending), family) == 0,
    decreases e - i, 2nat,
{
    let step = construct_at(s, i, e, pending);
    lemma_construct_at_floor(s, i, e, pending, family);
    lemma_construct_at_bounds(s, i, e, pending);
    if !step.done {
        lemma_construct_at_nesting(s, i, e, pending, family);
        lemma_inline_events_floor(s, step.next, e, step.pending, family);
        lemma_floor_add(step.events, inline_events(s, step.next, e, step.pending), family);
    }
}

/// An attribute never goes below zero.
proof fn lemma_attribute_at_floor(s: Seq<u8>, k: int, e: int, family: Family)
    requires
        0 <= k < e <= s.len(),
    ensures
        floor(attribute_at(s, k, e).events, family) == 0,
{
    let a = attribute_at(s, k, e);
    if k + 1 < e && s[k + 1] == LBRACKET {
        lemma_floor_one(a.events[0], family);
        assert(a.events =~= seq![a.events[0]]);
    } else if k + 1 < e && is_ident_start(s[k + 1]) {
        let key_end = run_end(s, k + 1, e, ByteClass::Ident);
        let v = value_at(s, run_end(s, key_end, e, ByteClass::Blank), e, false);
        lemma_value_at_errors(s, run_end(s, key_end, e, ByteClass::Blank), e, false);
        lemma_errors_floor(v.errors, family);
        lemma_floor_one(a.events[0], family);
        lemma_nesting_one(a.events[0], family);
        lemma_floor_add(seq![a.events[0]], v.errors, family);
        assert(a.events =~= seq![a.events[0]] + v.errors);
    } else {
        lemma_floor_one(a.events[0], family);
        assert(a.events =~= seq![a.events[0]]);
    }
}

/// An element header never goes below zero.
proof fn lemma_element_events_floor(s: Seq<u8>, k: int, e: int, family: Family)
    ensures
        floor(element_events(s, k, e), family) == 0,
{
    let h = header_at(s, k + 1, e);
    lemma_header_at_errors(s, k + 1, e);
    lemma_errors_floor(h.errors, family);
    lemma_floor_one(element_events(s, k, e)[0], family);
    lemma_nesting_one(element_events(s, k, e)[0], family);
    lemma_floor_add(seq![element_events(s, k, e)[0]], h.errors, family);
    assert(element_events(s, k, e) =~= seq![element_events(s, k, e)[0]] + h.errors);
}

/// `depth` element ends go `depth` elements down and no further.
proof fn lemma_closers_floor(depth: nat, at: int, family: Family)
    ensures
        floor(closers(depth, at), family) == -depth * element_unit(family),
    decreases depth,
{
    if depth > 0 {
        lemma_closers_floor((depth - 1) as nat, at, family);
        lemma_closers_nesting(depth, at, family);
        assert(closers(depth, at).drop_last() =~= closers((depth - 1) as nat, at));
        assert(-depth * element_unit(family) <= -(depth - 1) * element_unit(family))
            by (nonlinear_arith)
            requires
                0 <= element_unit(family) <= 1,
        ;
    }
}

/// The rest of a line goes no further down than the elements opened
/// rightward before it.
proof fn lemma_tail_events_floor(s: Seq<u8>, q: int, e: int, depth: nat, family: Family)
    requires
        0 <= q <= e <= s.len(),
    ensures
        floor(tail_events(s, q, e, depth), family) >= -depth * element_unit(family),
    decreases e - q,
{
    let k = run_end(s, q, e, ByteClass::Blank);
    lemma_run_end(s, q, e, ByteClass::Blank);
    lemma_closers_floor(depth, e, family);
    if k < e {
        if starts_element(s, k, e) {
            let end = header_at(s, k + 1, e).end;
            lemma_header_at_bounds(s, k + 1, e);
            lemma_element_events_floor(s, k, e, family);
            lemma_element_events_nesting(s, k, e, family);
            lemma_tail_events_floor(s, end, e, depth + 1, family);
            lemma_floor_add(element_events(s, k, e), tail_events(s, end, e, depth + 1), family);
            assert(-(depth + 1) * element_unit(family) == -depth * element_unit(family)
                - element_unit(family)) by (nonlinear_arith);
            assert(-depth * element_unit(family) <= 0) by (nonlinear_arith)
                requires
                    0 <= element_unit(family),
            ;
        } else if s[k] == COLON {
            let a = attribute_at(s, k, e);
            lemma_attribute_at_bounds(s, k, e);
            lemma_attribute_at_floor(s, k, e, family);
            lemma_attribute_at_nesting(s, k, e, family);
            lemma_tail_events_floor(s, a.end, e, depth, family);
            lemma_floor_add(a.events, tail_events(s, a.end, e, depth), family);
            assert(-depth * element_unit(family) <= 0) by (nonlinear_arith)
                requires
                    0 <= element_unit(family),
            ;
        } else {
            lemma_inline_events_floor(s, k, e, k, family);
            lemma_inline_events_nesting(s, k, e, k, family);
            lemma_floor_add(inline_events(s, k, e, k), closers(depth, e), family);
            assert(-depth * element_unit(family) <= 0) by (nonlinear_arith)
                requires
                    0 <= element_unit(family),
            ;
        }
    }
}

/// Frames hold a number of blocks open that is not negative, and that does
/// not shrink when frames are added.
proof fn lemma_held_bounds(frames: Seq<Frame>, keep: int, family: Family)
    requires
        0 <= keep <= frames.len(),
    ensures
        0 <= held(frames.take(keep), family) <= held(frames, family),
    decreases frames.len(),
{
    if frames.len() > keep {
        lemma_held_bounds(frames.drop_last(), keep, family);
        assert(frames.drop_last().take(keep) =~= frames.take(keep));
    } else {
        assert(frames.take(keep) =~= frames);
        lemma_held_positive(frames, family);
    }
}

proof fn lemma_held_positive(frames: Seq<Frame>, family: Family)
    ensures
        0 <= held(frames, family),
    decreases frames.len(),
{
    if frames.len() > 0 {
        lemma_held_positive(frames.drop_last(), family);
    }
}

/// Closing frames goes no further down than what they hold open.
proof fn lemma_close_events_floor(frames: Seq<Frame>, keep: nat, at: int, family: Family)
    requires
        keep <= frames.len(),
    ensures
        floor(close_events(frames, keep, at), family) >= held(frames.take(keep as int), family)
            - held(frames, family),
    decreases frames.len(),
{
    lemma_held_bounds(frames, keep as int, family);
    if frames.len() > keep {
        let rest = frames.drop_last();
        lemma_close_events_floor(rest, keep, at, family);
        lemma_held_bounds(rest, keep as int, family);
        assert(rest.take(keep as int) =~= frames.take(keep as int));
        let head = seq![end_event(frames.last().kind, at)];
        lemma_floor_one(head[0], family);
        lemma_nesting_one(head[0], family);
        lemma_floor_add(head, close_events(rest, keep, at), family);
    }
}

/// What a line's indentation causes goes no further down than the frames
/// that it drops.
proof fn lemma_dedent_events_floor(s: Seq<u8>, frames: Seq<Frame>, p: int, c: int, family: Family)
    ensures
        floor(dedent_events(s, frames, p, c), family) >= held(
            frames.take(dedent_of(s, frames, p, c).keep as int),
            family,
        ) - held(frames, family),
{
    let d = dedent_of(s, frames, p, c);
    lemma_dedent_of_bounds(s, frames, p, c);
    lemma_close_events_floor(frames, d.keep, c, family);
    lemma_held_bounds(frames, d.keep as int, family);
    if d.clash {
        let head = seq![error_event(ErrorKind::InconsistentIndentation, p, c)];
        lemma_floor_one(head[0], family);
        lemma_nesting_one(head[0], family);
        lemma_floor_add(head, close_events(frames, d.keep, c), family);
    }
}

proof fn lemma_three_floor(a: EventView, b: EventView, c: EventView, family: Family)
    requires
        delta(a, family) >= 0,
        delta(a, family) + delta(b, family) >= 0,
        delta(a, family) + delta(b, family) + delta(c, family) >= 0,
    ensures
        floor(seq![a, b, c], family) == 0,
        floor(seq![a, b], family) == 0,
{
    lemma_floor_one(a, family);
    lemma_nesting_one(a, family);
    lemma_floor_push(seq![a], b, family);
    lemma_nesting_push(seq![a], b, family);
    assert(seq![a].push(b) =~= seq![a, b]);
    lemma_floor_push(seq![a, b], c, family);
    assert(seq![a, b].push(c) =~= seq![a, b, c]);
}

proof fn lemma_freeform_floor(s: Seq<u8>, c: int, e: int, family: Family)
    ensures
        floor(freeform_events(s, c, e), family) == 0,
{
    let ev = freeform_events(s, c, e);
    if ev.len() == 3 {
        lemma_three_floor(ev[0], ev[1], ev[2], family);
        assert(ev =~= seq![ev[0], ev[1], ev[2]]);
    } else {
        lemma_three_floor(ev[0], ev[1], ev[0], family);
        assert(ev =~= seq![ev[0], ev[1]]);
    }
}

proof fn lemma_raw_floor(s: Seq<u8>, p: int, c: int, e: int, family: Family)
    ensures
        floor(raw_events(s, p, c, e), family) == 0,
{
    let ev = raw_events(s, p, c, e);
    if ev.len() == 3 {
        lemma_three_floor(ev[0], ev[1], ev[2], family);
        assert(ev =~= seq![ev[0], ev[1], ev[2]]);
    } else {
        lemma_three_floor(ev[0], ev[1], ev[0], family);
        assert(ev =~= seq![ev[0], ev[1]]);
    }
}

proof fn lemma_directive_floor(s: Seq<u8>, c: int, e: int, family: Family)
    requires
        0 <= c,
        c + 1 < e <= s.len(),
    ensures
        floor(directive_events(s, c, e), family) == 0,
{
    let n = directive_name(s, c + 1, e);
    lemma_directive_name_bounds(s, c + 1, e);
    let b = run_end(s, n.end, e, ByteClass::Blank);
    lemma_run_end(s, n.end, e, ByteClass::Blank);
    lemma_inline_events_floor(s, b, e, b, family);
    let head = seq![directive_start(n, c)];
    lemma_floor_one(head[0], family);
    lemma_nesting_one(head[0], family);
    lemma_floor_add(head, inline_events(s, b, e, b), family);
}

proof fn lemma_element_line_floor(s: Seq<u8>, c: int, e: int, family: Family)
    requires
        0 <= c < e <= s.len(),
    ensures
        floor(element_events(s, c, e) + tail_events(s, header_at(s, c + 1, e).end, e, 0), family)
            == 0,
{
    let end = header_at(s, c + 1, e).end;
    lemma_header_at_bounds(s, c + 1, e);
    lemma_element_events_floor(s, c, e, family);
    lemma_element_events_nesting(s, c, e, family);
    lemma_tail_events_floor(s, end, e, 0, family);
    lemma_floor_add(element_events(s, c, e), tail_events(s, end, e, 0), family);
    lemma_floor_bounds(element_events(s, c, e) + tail_events(s, end, e, 0), family);
}

/// A block never goes below where it starts.
proof fn lemma_block_at_floor(
    s: Seq<u8>,
    p: int,
    c: int,
    e: int,
    frames: Seq<Frame>,
    family: Family,
)
    requires
        0 <= p <= c < e <= s.len(),
    ensures
        floor(block_at(s, p, c, e, frames).events, family) == 0,
{
    reveal(block_at);
    if is_fence(s, c, e) {
        lemma_freeform_floor(s, c, e, family);
    } else if is_block_directive(s, c, e) {
        if directive_name(s, c + 1, e).is_raw {
            lemma_raw_floor(s, p, c, e, family);
        } else {
            lemma_directive_floor(s, c, e, family);
        }
    } else if starts_element(s, c, e) {
        lemma_element_line_floor(s, c, e, family);
    } else if s[c] == COLON {
        lemma_tail_events_floor(s, c, e, 0, family);
        lemma_floor_bounds(tail_events(s, c, e, 0), family);
    } else {
        lemma_inline_events_floor(s, c, e, c, family);
    }
}

/// A line goes no further down than the frames that are open before it.
proof fn lemma_line_at_floor(s: Seq<u8>, p: int, frames: Seq<Frame>, family: Family)
    requires
        0 <= p < s.len(),
    ensures
        floor(line_at(s, p, frames).events, family) >= -held(frames, family),
{
    lemma_line_bounds(s, p);
    let e = line_end(s, p);
    let c = run_end(s, p, e, ByteClass::Blank);
    lemma_run_end(s, p, e, ByteClass::Blank);
    lemma_held_positive(frames, family);
    if c < e {
        let d = dedent_of(s, frames, p, c);
        lemma_dedent_of_bounds(s, frames, p, c);
        let kept = frames.take(d.keep as int);
        let block = block_at(s, p, c, e, kept);
        lemma_dedent_events_floor(s, frames, p, c, family);
        lemma_dedent_events_nesting(s, frames, p, c, family);
        lemma_block_at_floor(s, p, c, e, kept, family);
        lemma_held_bounds(frames, d.keep as int, family);
        lemma_floor_add(dedent_events(s, frames, p, c), block.events, family);
    }
}

/// The rest of a buffer goes no further down than the frames that are
/// open.
proof fn lemma_events_from_floor(s: Seq<u8>, p: int, frames: Seq<Frame>, family: Family)
    requires
        0 <= p <= s.len(),
    ensures
        floor(events_from(s, p, frames), family) >= -held(frames, family),
    decreases s.len() - p,
{
    if p < s.len() {
        let line = line_at(s, p, frames);
        lemma_line_at_floor(s, p, frames, family);
        lemma_line_at_nesting(s, p, frames, family);
        lemma_line_at_next(s, p, frames);
        lemma_events_from_floor(s, line.next, line.frames, family);
        lemma_floor_add(line.events, events_from(s, line.next, line.frames), family);
    } else {
        lemma_close_events_floor(frames, 0, s.len() as int, family);
        assert(frames.take(0) =~= Seq::<Frame>::empty());
    }
}

/// Among the first `n` events, each family has at least as many starts as
/// ends.
pub open spec fn well_nested(events: Seq<EventView>) -> bool {
    forall|family: Family, n: int|
        0 <= n <= events.len() ==> #[trigger] nesting(events.take(n), family) >= 0
}

/// No prefix's nesting is below the floor.
proof fn lemma_floor_is_lowest(events: Seq<EventView>, n: int, family: Family)
    requires
        0 <= n <= events.len(),
    ensures
        floor(events, family) <= nesting(events.take(n), family),
    decreases events.len(),
{
    if n == events.len() {
        assert(events.take(n) =~= events);
        lemma_floor_bounds(events, family);
    } else {
        lemma_floor_is_lowest(events.drop_last(), n, family);
        assert(events.drop_last().take(n) =~= events.take(n));
    }
}

/// No end comes before its start: at every point of the events of any
/// buffer, each family (element, embedded, directive, freeform) has at
/// least as many starts behind it as ends.
pub proof fn lemma_well_nested(s: Seq<u8>)
    ensures
        well_nested(document_events(s)),
{
    let events = document_events(s);
    assert forall|family: Family, n: int| 0 <= n <= events.len() implies #[trigger] nesting(
        events.take(n),
        family,
    ) >= 0 by {
        lemma_events_from_floor(s, 0, Seq::empty(), family);
        lemma_floor_is_lowest(events, n, family);
    }
}

} // verus!
