//! The inline scanner: within one line segment it finds comments,
//! interpolations, inline directives, embedded elements, id references and
//! escapes, and gathers everything else into text.

use vstd::prelude::*;
use vstd::slice::slice_subrange;
use crate::event::{
    emit, emit_all, error_event, events_view, option_bytes, push_error, ErrorKind, Event,
    EventView,
};
use crate::header::{header_at, parse_header};
use crate::lex::{
    brace_close, byte_is_ident_start, find_brace_close, is_ident_start, lemma_brace_close,
    lemma_run_end, run_end, scan_run, ByteClass, APOSTROPHE, AT, BANG, BAR, COLON, LBRACE,
    LBRACKET, LOWER_A, LOWER_R, LOWER_W, RBRACKET, SEMICOLON,
};
use crate::span::{span_of, Span};

verus! {

/// A parsed directive name, `name` or `namespace:name`.
pub struct DirectiveName<'a> {
    pub namespace: Option<&'a [u8]>,
    pub name: &'a [u8],
    pub is_raw: bool,
    /// Offset just past the name.
    pub end: usize,
}

/// Mathematical model of a directive name.
pub struct NameScan {
    pub namespace: Option<Seq<u8>>,
    pub name: Seq<u8>,
    pub is_raw: bool,
    pub end: int,
}

/// The bytes `[a, b)` spell `raw`.
pub open spec fn is_raw_word(s: Seq<u8>, a: int, b: int) -> bool {
    &&& b - a == 3 && 0 <= a && b <= s.len()
    &&& s[a] == LOWER_R
    &&& s[a + 1] == LOWER_A
    &&& s[a + 2] == LOWER_W
}

/// The directive name that starts at `p`, just after a `!`. A first
/// identifier followed by `:` and a second identifier is a namespace; the
/// namespace `raw` marks a raw directive.
pub open spec fn directive_name(s: Seq<u8>, p: int, e: int) -> NameScan {
    let a = run_end(s, p, e, ByteClass::Ident);
    if 0 <= a && a + 1 < e <= s.len() && s[a] == COLON && is_ident_start(s[a + 1]) {
        NameScan {
            namespace: Some(s.subrange(p, a)),
            name: s.subrange(a + 1, run_end(s, a + 1, e, ByteClass::Ident)),
            is_raw: is_raw_word(s, p, a),
            end: run_end(s, a + 1, e, ByteClass::Ident),
        }
    } else {
        NameScan { namespace: None, name: s.subrange(p, a), is_raw: false, end: a }
    }
}

/// A directive name ends inside its window.
pub proof fn lemma_directive_name_bounds(s: Seq<u8>, p: int, e: int)
    requires
        0 <= p <= e <= s.len(),
    ensures
        p <= directive_name(s, p, e).end <= e,
{
    lemma_run_end(s, p, e, ByteClass::Ident);
    let a = run_end(s, p, e, ByteClass::Ident);
    if a + 1 < e {
        lemma_run_end(s, a + 1, e, ByteClass::Ident);
    }
}

/// Parses the directive name that starts at `p`.
pub fn parse_directive_name<'a>(input: &'a [u8], p: usize, e: usize) -> (n: DirectiveName<'a>)
    requires
        p <= e <= input@.len(),
    ensures
        option_bytes(n.namespace) == directive_name(
            input@,
            p as int,
            e as int,
        ).namespace,
        n.name@ == directive_name(input@, p as int, e as int).name,
        n.is_raw == directive_name(input@, p as int, e as int).is_raw,
        n.end == directive_name(input@, p as int, e as int).end,
        p <= n.end <= e,
{
    let a = scan_run(input, p, e, ByteClass::Ident);
    if e - a > 1 && input[a] == COLON && byte_is_ident_start(input[a + 1]) {
        let b = scan_run(input, a + 1, e, ByteClass::Ident);
        let is_raw = a - p == 3 && input[p] == LOWER_R && input[p + 1] == LOWER_A && input[p
            + 2] == LOWER_W;
        DirectiveName {
            namespace: Some(slice_subrange(input, p, a)),
            name: slice_subrange(input, a + 1, b),
            is_raw,
            end: b,
        }
    } else {
        DirectiveName { namespace: None, name: slice_subrange(input, p, a), is_raw: false, end: a }
    }
}

/// The text event over `[a, b)`, or nothing when the range is empty.
pub open spec fn text_events(s: Seq<u8>, a: int, b: int) -> Seq<EventView> {
    if a < b {
        seq![EventView::Text { content: s.subrange(a, b), span: span_of(a, b) }]
    } else {
        Seq::empty()
    }
}

/// Bytes that an apostrophe escapes.
pub open spec fn is_escapable(b: u8) -> bool {
    b == BAR || b == COLON || b == SEMICOLON || b == APOSTROPHE
}

/// Mathematical model of one scanning step: the events of the construct at
/// the current offset, and where the scanner stands after it.
pub struct StepView {
    pub events: Seq<EventView>,
    /// Next offset to read.
    pub next: int,
    /// Start of the text read and not yet emitted.
    pub pending: int,
    /// Whether the segment is finished.
    pub done: bool,
}

/// What an inline construct without its closing brace yields: the pending
/// text, a diagnostic, and the rest of the segment as literal text.
pub open spec fn unterminated(s: Seq<u8>, i: int, e: int, pending: int) -> StepView {
    StepView {
        events: text_events(s, pending, i).push(
            error_event(ErrorKind::UnterminatedInline, i, e),
        ).push(EventView::Text { content: s.subrange(i, e), span: span_of(i, e) }),
        next: e,
        pending: e,
        done: true,
    }
}

/// A step that emits the pending text and `event`, and goes on at `next`
/// with no text pending.
pub open spec fn construct(s: Seq<u8>, i: int, pending: int, event: EventView, next: int) -> StepView {
    StepView { events: text_events(s, pending, i).push(event), next, pending: next, done: false }
}

/// The interpolation `!{…}` at `i`: its interior runs to the matching `}`.
pub open spec fn interpolation_step(s: Seq<u8>, i: int, e: int, pending: int) -> StepView {
    let c = brace_close(s, i + 2, e, 0, false);
    if c < e {
        construct(
            s,
            i,
            pending,
            EventView::Interpolation { expression: s.subrange(i + 2, c), span: span_of(i, c + 1) },
            c + 1,
        )
    } else {
        unterminated(s, i, e, pending)
    }
}

/// What a `!` before an identifier starts at `i`: the inline directive
/// `!name{…}`, whose interior is emitted verbatim, or, without `{` after
/// the name, literal text.
pub open spec fn directive_step(s: Seq<u8>, i: int, e: int, pending: int) -> StepView {
    let n = directive_name(s, i + 1, e);
    let c = brace_close(s, n.end + 1, e, 0, false);
    if 0 <= n.end < e <= s.len() && s[n.end] == LBRACE {
        if c < e {
            construct(
                s,
                i,
                pending,
                EventView::InlineDirective {
                    name: n.name,
                    namespace: n.namespace,
                    is_raw: n.is_raw,
                    content: s.subrange(n.end + 1, c),
                    span: span_of(i, c + 1),
                },
                c + 1,
            )
        } else {
            unterminated(s, i, e, pending)
        }
    } else {
        StepView { events: Seq::empty(), next: i + 1, pending, done: false }
    }
}

/// The id reference `@[id]` at `i`. Without the closing `]` a diagnostic is
/// emitted and the bytes stay text.
pub open spec fn reference_step(s: Seq<u8>, i: int, e: int, pending: int) -> StepView {
    let r = run_end(s, i + 2, e, ByteClass::Ident);
    if 0 <= r < e <= s.len() && s[r] == RBRACKET {
        construct(
            s,
            i,
            pending,
            EventView::IdReference { id: s.subrange(i + 2, r), span: span_of(i, r + 1) },
            r + 1,
        )
    } else {
        StepView {
            events: text_events(s, pending, i).push(error_event(ErrorKind::MissingBracket, i, r)),
            next: r,
            pending: i,
            done: false,
        }
    }
}

/// The embedded element `|{…}` at `i`: a header, then a body that is
/// scanned in turn, then the end event at the closing brace.
pub open spec fn embedded_step(s: Seq<u8>, i: int, e: int, pending: int) -> StepView
    decreases e - i, 0nat,
{
    let c = brace_close(s, i + 2, e, 0, false);
    let h = header_at(s, i + 2, c);
    let b = run_end(s, h.end, c, ByteClass::Blank);
    if 0 <= i && i + 2 <= c < e <= s.len() {
        if i + 2 <= b <= c {
            StepView {
                events: text_events(s, pending, i).push(
                    EventView::EmbeddedStart {
                        name: h.name,
                        id: h.id,
                        classes: h.classes,
                        span: span_of(i, h.end),
                    },
                ) + h.errors + inline_events(s, b, c, b).push(
                    EventView::EmbeddedEnd { span: span_of(c, c + 1) },
                ),
                next: c + 1,
                pending: c + 1,
                done: false,
            }
        } else {
            unterminated(s, i, e, pending)
        }
    } else {
        unterminated(s, i, e, pending)
    }
}

/// The construct at `i`, where `[pending, i)` is text already read and not
/// yet emitted.
///
/// - At the segment's end the pending text is emitted.
/// - `;` starts a comment that runs to the segment's end.
/// - `!{` starts an interpolation, `!` and an identifier an inline
///   directive, `|{` an embedded element, `@[` an id reference.
/// - `'` before `|`, `:`, `;` or `'` escapes that byte: the pending text is
///   emitted without the apostrophe, and the escaped byte starts new text.
/// - Every other byte is text.
pub open spec fn construct_at(s: Seq<u8>, i: int, e: int, pending: int) -> StepView
    decreases e - i, 1nat,
{
    if !(0 <= pending <= i < e <= s.len()) {
        StepView { events: text_events(s, pending, i), next: e, pending: e, done: true }
    } else if s[i] == SEMICOLON {
        StepView {
            events: text_events(s, pending, i).push(
                EventView::Comment { content: s.subrange(i + 1, e), span: span_of(i, e) },
            ),
            next: e,
            pending: e,
            done: true,
        }
    } else if s[i] == BANG && i + 1 < e && s[i + 1] == LBRACE {
        interpolation_step(s, i, e, pending)
    } else if s[i] == BANG && i + 1 < e && is_ident_start(s[i + 1]) {
        directive_step(s, i, e, pending)
    } else if s[i] == BAR && i + 1 < e && s[i + 1] == LBRACE {
        embedded_step(s, i, e, pending)
    } else if s[i] == AT && i + 1 < e && s[i + 1] == LBRACKET {
        reference_step(s, i, e, pending)
    } else if s[i] == APOSTROPHE && i + 1 < e && is_escapable(s[i + 1]) {
        StepView { events: text_events(s, pending, i), next: i + 2, pending: i + 1, done: false }
    } else {
        StepView { events: Seq::empty(), next: i + 1, pending, done: false }
    }
}

/// The events of the segment `[i, e)`, where `[pending, i)` is text already
/// read and not yet emitted: the events of the construct at `i`, then those
/// of the rest.
pub open spec fn inline_events(s: Seq<u8>, i: int, e: int, pending: int) -> Seq<EventView>
    decreases e - i, 2nat,
{
    let step = construct_at(s, i, e, pending);
    if step.done || !(i < step.next <= e) {
        step.events
    } else {
        step.events + inline_events(s, step.next, e, step.pending)
    }
}

/// A step that is not the last one moves forward and stays in the segment.
pub proof fn lemma_construct_at_bounds(s: Seq<u8>, i: int, e: int, pending: int)
    requires
        0 <= pending <= i <= e <= s.len(),
    ensures
        !construct_at(s, i, e, pending).done ==> i < construct_at(s, i, e, pending).next <= e
            && pending <= construct_at(s, i, e, pending).pending <= construct_at(
            s,
            i,
            e,
            pending,
        ).next,
{
    if i < e {
        if i + 1 < e {
            lemma_brace_close(s, i + 2, e, 0, false);
            lemma_directive_name_bounds(s, i + 1, e);
            let n = directive_name(s, i + 1, e);
            if n.end < e {
                lemma_brace_close(s, n.end + 1, e, 0, false);
            }
            lemma_run_end(s, i + 2, e, ByteClass::Ident);
        }
    }
}

/// Emits the text `[a, b)`, if there is any.
pub fn flush_text<'a>(input: &'a [u8], a: usize, b: usize, events: &mut Vec<Event<'a>>)
    requires
        a <= b <= input@.len(),
    ensures
        events_view(final(events)@) == events_view(old(events)@) + text_events(
            input@,
            a as int,
            b as int,
        ),
{
    let ghost before = events_view(events@);
    if a < b {
        emit(events, Event::Text { content: slice_subrange(input, a, b), span: Span::new(a, b) });
        assert(before.push(text_events(input@, a as int, b as int)[0]) =~= before + text_events(
            input@,
            a as int,
            b as int,
        ));
    } else {
        assert(before + Seq::<EventView>::empty() =~= before);
    }
}

/// Where the scanner stands after one construct.
pub struct Step {
    /// Next offset to read.
    pub next: usize,
    /// Start of the text read and not yet emitted.
    pub pending: usize,
    /// Whether the segment is finished.
    pub done: bool,
}

/// The step taken is the one owed: the events appended and the new
/// position are those of `view`.
pub open spec fn stepped(
    before: Seq<EventView>,
    after: Seq<EventView>,
    step: Step,
    view: StepView,
) -> bool {
    &&& after == before + view.events
    &&& step.next == view.next
    &&& step.pending == view.pending
    &&& step.done == view.done
}

/// Emits what an inline construct without its closing brace yields.
fn emit_unterminated<'a>(
    input: &'a [u8],
    i: usize,
    e: usize,
    pending: usize,
    events: &mut Vec<Event<'a>>,
) -> (step: Step)
    requires
        pending <= i < e <= input@.len(),
    ensures
        stepped(
            events_view(old(events)@),
            events_view(final(events)@),
            step,
            unterminated(input@, i as int, e as int, pending as int),
        ),
{
    let ghost before = events_view(events@);
    flush_text(input, pending, i, events);
    push_error(events, ErrorKind::UnterminatedInline, i, e);
    emit(events, Event::Text { content: slice_subrange(input, i, e), span: Span::new(i, e) });
    assert(events_view(events@) =~= before + unterminated(
        input@,
        i as int,
        e as int,
        pending as int,
    ).events);
    Step { next: e, pending: e, done: true }
}

/// Emits the pending text and `event`, and goes on at `next`.
fn emit_construct<'a>(
    input: &'a [u8],
    i: usize,
    pending: usize,
    event: Event<'a>,
    next: usize,
    events: &mut Vec<Event<'a>>,
) -> (step: Step)
    requires
        pending <= i <= input@.len(),
    ensures
        stepped(
            events_view(old(events)@),
            events_view(final(events)@),
            step,
            construct(input@, i as int, pending as int, event@, next as int),
        ),
{
    let ghost before = events_view(events@);
    flush_text(input, pending, i, events);
    emit(events, event);
    assert(events_view(events@) =~= before + construct(
        input@,
        i as int,
        pending as int,
        event@,
        next as int,
    ).events);
    Step { next, pending: next, done: false }
}

fn byte_is_escapable(b: u8) -> (r: bool)
    ensures
        r == is_escapable(b),
{
    b == BAR || b == COLON || b == SEMICOLON || b == APOSTROPHE
}

/// Scans the interpolation whose `!{` stands at `i`.
fn scan_interpolation<'a>(
    input: &'a [u8],
    i: usize,
    e: usize,
    pending: usize,
    events: &mut Vec<Event<'a>>,
) -> (step: Step)
    requires
        pending <= i,
        i + 1 < e <= input@.len(),
    ensures
        stepped(
            events_view(old(events)@),
            events_view(final(events)@),
            step,
            interpolation_step(input@, i as int, e as int, pending as int),
        ),
{
    let c = find_brace_close(input, i + 2, e);
    if c < e {
        let event = Event::Interpolation {
            expression: slice_subrange(input, i + 2, c),
            span: Span::new(i, c + 1),
        };
        emit_construct(input, i, pending, event, c + 1, events)
    } else {
        emit_unterminated(input, i, e, pending, events)
    }
}

/// Scans what the `!` at `i`, followed by an identifier, starts.
fn scan_inline_directive<'a>(
    input: &'a [u8],
    i: usize,
    e: usize,
    pending: usize,
    events: &mut Vec<Event<'a>>,
) -> (step: Step)
    requires
        pending <= i,
        i + 1 < e <= input@.len(),
    ensures
        stepped(
            events_view(old(events)@),
            events_view(final(events)@),
            step,
            directive_step(input@, i as int, e as int, pending as int),
        ),
{
    let ghost before = events_view(events@);
    let n = parse_directive_name(input, i + 1, e);
    if n.end < e && input[n.end] == LBRACE {
        let c = find_brace_close(input, n.end + 1, e);
        if c < e {
            let event = Event::InlineDirective {
                name: n.name,
                namespace: n.namespace,
                is_raw: n.is_raw,
                content: slice_subrange(input, n.end + 1, c),
                span: Span::new(i, c + 1),
            };
            emit_construct(input, i, pending, event, c + 1, events)
        } else {
            emit_unterminated(input, i, e, pending, events)
        }
    } else {
        assert(before + Seq::<EventView>::empty() =~= before);
        Step { next: i + 1, pending, done: false }
    }
}

/// Scans the id reference whose `@[` stands at `i`.
fn scan_id_reference<'a>(
    input: &'a [u8],
    i: usize,
    e: usize,
    pending: usize,
    events: &mut Vec<Event<'a>>,
) -> (step: Step)
    requires
        pending <= i,
        i + 1 < e <= input@.len(),
    ensures
        stepped(
            events_view(old(events)@),
            events_view(final(events)@),
            step,
            reference_step(input@, i as int, e as int, pending as int),
        ),
{
    let ghost before = events_view(events@);
    let r = scan_run(input, i + 2, e, ByteClass::Ident);
    if r < e && input[r] == RBRACKET {
        let event = Event::IdReference {
            id: slice_subrange(input, i + 2, r),
            span: Span::new(i, r + 1),
        };
        emit_construct(input, i, pending, event, r + 1, events)
    } else {
        flush_text(input, pending, i, events);
        push_error(events, ErrorKind::MissingBracket, i, r);
        assert(events_view(events@) =~= before + reference_step(
            input@,
            i as int,
            e as int,
            pending as int,
        ).events);
        Step { next: r, pending: i, done: false }
    }
}

/// Scans the embedded element whose `|{` stands at `i`.
fn scan_embedded<'a>(
    input: &'a [u8],
    i: usize,
    e: usize,
    pending: usize,
    events: &mut Vec<Event<'a>>,
) -> (step: Step)
    requires
        pending <= i,
        i + 1 < e <= input@.len(),
    ensures
        stepped(
            events_view(old(events)@),
            events_view(final(events)@),
            step,
            embedded_step(input@, i as int, e as int, pending as int),
        ),
    decreases e - i, 0nat,
{
    let ghost s = input@;
    let ghost before = events_view(events@);
    let c = find_brace_close(input, i + 2, e);
    if c < e {
        let mut errors: Vec<Event<'a>> = Vec::new();
        let h = parse_header(input, i + 2, c, &mut errors);
        let ghost hs = header_at(s, i + 2, c as int);
        assert(events_view(errors@) =~= hs.errors);
        let body = scan_run(input, h.end, c, ByteClass::Blank);
        let start = Event::EmbeddedStart {
            name: h.name,
            id: h.id,
            classes: h.classes,
            span: Span::new(i, h.end),
        };
        let ghost start_view = start@;
        flush_text(input, pending, i, events);
        emit(events, start);
        emit_all(events, &mut errors);
        let ghost mid = events_view(events@);
        scan_inline(input, body, c, events);
        emit(events, Event::EmbeddedEnd { span: Span::new(c, c + 1) });
        proof {
            let inner = inline_events(s, body as int, c as int, body as int);
            assert(mid =~= before + (text_events(s, pending as int, i as int).push(start_view)
                + hs.errors));
            assert(events_view(events@) =~= before + embedded_step(
                s,
                i as int,
                e as int,
                pending as int,
            ).events);
        }
        Step { next: c + 1, pending: c + 1, done: false }
    } else {
        emit_unterminated(input, i, e, pending, events)
    }
}

/// Scans the construct at `i`.
fn scan_construct<'a>(
    input: &'a [u8],
    i: usize,
    e: usize,
    pending: usize,
    events: &mut Vec<Event<'a>>,
) -> (step: Step)
    requires
        pending <= i <= e <= input@.len(),
    ensures
        stepped(
            events_view(old(events)@),
            events_view(final(events)@),
            step,
            construct_at(input@, i as int, e as int, pending as int),
        ),
    decreases e - i, 1nat,
{
    let ghost before = events_view(events@);
    if i >= e {
        flush_text(input, pending, i, events);
        return Step { next: e, pending: e, done: true };
    }
    let b = input[i];
    if b == SEMICOLON {
        flush_text(input, pending, i, events);
        emit(
            events,
            Event::Comment { content: slice_subrange(input, i + 1, e), span: Span::new(i, e) },
        );
        assert(events_view(events@) =~= before + construct_at(
            input@,
            i as int,
            e as int,
            pending as int,
        ).events);
        Step { next: e, pending: e, done: true }
    } else if b == BANG && e - i > 1 && input[i + 1] == LBRACE {
        scan_interpolation(input, i, e, pending, events)
    } else if b == BANG && e - i > 1 && byte_is_ident_start(input[i + 1]) {
        scan_inline_directive(input, i, e, pending, events)
    } else if b == BAR && e - i > 1 && input[i + 1] == LBRACE {
        scan_embedded(input, i, e, pending, events)
    } else if b == AT && e - i > 1 && input[i + 1] == LBRACKET {
        scan_id_reference(input, i, e, pending, events)
    } else if b == APOSTROPHE && e - i > 1 && byte_is_escapable(input[i + 1]) {
        flush_text(input, pending, i, events);
        Step { next: i + 2, pending: i + 1, done: false }
    } else {
        assert(before + Seq::<EventView>::empty() =~= before);
        Step { next: i + 1, pending, done: false }
    }
}

/// Scans the segment `[start, e)` and appends its events.
pub fn scan_inline<'a>(input: &'a [u8], start: usize, e: usize, events: &mut Vec<Event<'a>>)
    requires
        start <= e <= input@.len(),
    ensures
        events_view(final(events)@) == events_view(old(events)@) + inline_events(
            input@,
            start as int,
            e as int,
            start as int,
        ),
    decreases e - start, 2nat,
{
    let ghost s = input@;
    let ghost before = events_view(events@);
    let ghost whole = inline_events(s, start as int, e as int, start as int);
    let mut i: usize = start;
    let mut pending: usize = start;
    loop
        invariant_except_break
            start <= pending <= i <= e <= input@.len(),
            s == input@,
            events_view(events@) + inline_events(s, i as int, e as int, pending as int) == before
                + whole,
        ensures
            events_view(events@) == before + whole,
        decreases e - i,
    {
        let ghost here = events_view(events@);
        let ghost view = construct_at(s, i as int, e as int, pending as int);
        proof {
            lemma_construct_at_bounds(s, i as int, e as int, pending as int);
        }
        let step = scan_construct(input, i, e, pending, events);
        if step.done {
            break ;
        }
        proof {
            let rest = inline_events(s, step.next as int, e as int, step.pending as int);
            assert((here + view.events) + rest =~= here + (view.events + rest));
        }
        i = step.next;
        pending = step.pending;
    }
}

} // verus!
