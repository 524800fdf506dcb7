//! Blocks: what one line, found at some indentation, opens or contains.
//! Elements and directives stay open for the lines that nest inside them;
//! raw directives and freeform blocks capture the lines that follow
//! verbatim.

use vstd::prelude::*;
use vstd::slice::slice_subrange;
use crate::event::{emit, events_view, Event, EventView};
use crate::header::header_at;
use crate::indent::{frames_within, indent_prefix, is_indent_prefix, Frame, FrameKind};
use crate::inline::{
    directive_name, inline_events, parse_directive_name, scan_inline, NameScan,
};
use crate::lex::{
    byte_is_ident_start, is_ident_start, lemma_run_end, run_end, scan_run, ByteClass, BACKTICK,
    BANG, BAR, COLON, LBRACE,
};
use crate::line::{element_events, open_element, scan_tail, starts_element, tail_events};
use crate::span::{span_of, Span};

verus! {

/// End of the line that holds offset `p`: the offset of its newline, or the
/// buffer's end.
pub open spec fn line_end(s: Seq<u8>, p: int) -> int {
    run_end(s, p, s.len() as int, ByteClass::InLine)
}

/// Start of the line after the one that ends at `e`.
pub open spec fn next_line(s: Seq<u8>, e: int) -> int {
    if e < s.len() {
        e + 1
    } else {
        e
    }
}

/// A line ends at or after its start, inside the buffer, and the next line
/// starts after any offset of a line that is inside the buffer.
pub proof fn lemma_line_bounds(s: Seq<u8>, p: int)
    requires
        0 <= p <= s.len(),
    ensures
        p <= line_end(s, p) <= s.len(),
        p <= next_line(s, line_end(s, p)) <= s.len(),
        p < s.len() ==> p < next_line(s, line_end(s, p)),
{
    lemma_run_end(s, p, s.len() as int, ByteClass::InLine);
}

/// Finds the end of the line that holds `p`, and the start of the next one.
pub fn scan_line(input: &[u8], p: usize) -> (r: (usize, usize))
    requires
        p <= input@.len(),
    ensures
        r.0 == line_end(input@, p as int),
        r.1 == next_line(input@, r.0 as int),
        p <= r.0 <= r.1 <= input@.len(),
        p < input@.len() ==> p < r.1,
{
    let e = scan_run(input, p, input.len(), ByteClass::InLine);
    let next = if e < input.len() {
        e + 1
    } else {
        e
    };
    (e, next)
}

/// Mathematical model of a raw body: where its content starts (if it has
/// any), where it ends, and the line at which parsing resumes.
pub struct RawScan {
    pub first: Option<int>,
    pub last: int,
    pub next: int,
}

/// The body of a raw directive whose line has the indentation `[p, c)`,
/// scanned from the line that starts at `l`.
///
/// The body is made of the lines that follow the directive and are blank or
/// indented more deeply than it. Its content starts at the first byte after
/// the indentation of its first line that is not blank, and ends with the
/// last such line, newline included; blank lines after that are not part of
/// it. Parsing resumes at the first line that is neither blank nor deeper.
pub open spec fn raw_body(s: Seq<u8>, l: int, p: int, c: int, first: Option<int>, last: int) -> RawScan
    decreases s.len() - l,
{
    if !(0 <= l < s.len()) {
        RawScan { first, last, next: l }
    } else {
        proof {
            lemma_line_bounds(s, l);
        }
        let e = line_end(s, l);
        let k = run_end(s, l, e, ByteClass::Blank);
        if k >= e {
            raw_body(s, next_line(s, e), p, c, first, last)
        } else if indent_prefix(s, p, c, l, k) && c - p < k - l {
            raw_body(
                s,
                next_line(s, e),
                p,
                c,
                if first is Some {
                    first
                } else {
                    Some(k)
                },
                next_line(s, e),
            )
        } else {
            RawScan { first, last, next: l }
        }
    }
}

/// A raw body starts at or after the line it is scanned from, ends at or
/// after its start, and parsing resumes at or after its end.
pub proof fn lemma_raw_body_bounds(
    s: Seq<u8>,
    l: int,
    p: int,
    c: int,
    first: Option<int>,
    last: int,
    lo: int,
)
    requires
        0 <= lo <= last <= l <= s.len(),
        first matches Some(f) ==> lo <= f <= last,
    ensures
        l <= raw_body(s, l, p, c, first, last).next <= s.len(),
        last <= raw_body(s, l, p, c, first, last).last <= raw_body(s, l, p, c, first, last).next,
        raw_body(s, l, p, c, first, last).first matches Some(f) ==> lo <= f <= raw_body(
            s,
            l,
            p,
            c,
            first,
            last,
        ).last,
    decreases s.len() - l,
{
    if l < s.len() {
        lemma_line_bounds(s, l);
        let e = line_end(s, l);
        let k = run_end(s, l, e, ByteClass::Blank);
        lemma_run_end(s, l, e, ByteClass::Blank);
        if k >= e {
            lemma_raw_body_bounds(s, next_line(s, e), p, c, first, last, lo);
        } else if indent_prefix(s, p, c, l, k) && c - p < k - l {
            lemma_raw_body_bounds(
                s,
                next_line(s, e),
                p,
                c,
                if first is Some {
                    first
                } else {
                    Some(k)
                },
                next_line(s, e),
                lo,
            );
        }
    }
}

/// The directive start event for the name `n`, whose `!` stands at `c`.
pub open spec fn directive_start(n: NameScan, c: int) -> EventView {
    EventView::DirectiveStart {
        name: n.name,
        namespace: n.namespace,
        is_raw: n.is_raw,
        span: span_of(c, n.end),
    }
}

/// The events of the raw directive whose `!` stands at `c` on the line
/// `[p, e)`: the start, the body's content as one event if there is any,
/// and the end. What follows the name on the directive's own line is
/// ignored.
pub open spec fn raw_events(s: Seq<u8>, p: int, c: int, e: int) -> Seq<EventView> {
    let r = raw_body(s, next_line(s, e), p, c, None, e);
    match r.first {
        Some(f) => seq![
            directive_start(directive_name(s, c + 1, e), c),
            EventView::RawContent { content: s.subrange(f, r.last), span: span_of(f, r.last) },
            EventView::DirectiveEnd { span: span_of(r.last, r.last) },
        ],
        None => seq![
            directive_start(directive_name(s, c + 1, e), c),
            EventView::DirectiveEnd { span: span_of(r.last, r.last) },
        ],
    }
}

/// Three backticks stand at `c`.
pub open spec fn is_fence(s: Seq<u8>, c: int, e: int) -> bool {
    0 <= c && c + 3 <= e <= s.len() && s[c] == BACKTICK && s[c + 1] == BACKTICK && s[c + 2]
        == BACKTICK
}

/// Start of the first line at or after `l` whose content starts with a
/// fence, or the buffer's end when there is none.
pub open spec fn fence_line(s: Seq<u8>, l: int) -> int
    decreases s.len() - l,
{
    if !(0 <= l < s.len()) {
        s.len() as int
    } else {
        proof {
            lemma_line_bounds(s, l);
        }
        if is_fence(s, run_end(s, l, line_end(s, l), ByteClass::Blank), line_end(s, l)) {
            l
        } else {
            fence_line(s, next_line(s, line_end(s, l)))
        }
    }
}

/// The closing fence line, if there is one, starts inside the buffer.
pub proof fn lemma_fence_line_bounds(s: Seq<u8>, l: int)
    requires
        0 <= l <= s.len(),
    ensures
        l <= fence_line(s, l) <= s.len(),
    decreases s.len() - l,
{
    if l < s.len() {
        lemma_line_bounds(s, l);
        if !is_fence(s, run_end(s, l, line_end(s, l), ByteClass::Blank), line_end(s, l)) {
            lemma_fence_line_bounds(s, next_line(s, line_end(s, l)));
        }
    }
}

/// The end event of a freeform block whose closing fence line starts at
/// `f`: over the fence if there is one, at the buffer's end otherwise.
pub open spec fn freeform_end(s: Seq<u8>, f: int) -> EventView {
    if f < s.len() {
        EventView::FreeformEnd {
            span: span_of(run_end(s, f, line_end(s, f), ByteClass::Blank), line_end(s, f)),
        }
    } else {
        EventView::FreeformEnd { span: span_of(s.len() as int, s.len() as int) }
    }
}

/// The events of the freeform block whose opening fence stands at `c` on
/// the line that ends at `e`: the start over the fence and its tag, every
/// byte between the fence lines as one event if there is any, and the end.
/// Only a fence closes the block; without one it runs to the buffer's end.
pub open spec fn freeform_events(s: Seq<u8>, c: int, e: int) -> Seq<EventView> {
    let b = next_line(s, e);
    let f = fence_line(s, b);
    if b < f {
        seq![
            EventView::FreeformStart { span: span_of(c, e) },
            EventView::RawContent { content: s.subrange(b, f), span: span_of(b, f) },
            freeform_end(s, f),
        ]
    } else {
        seq![EventView::FreeformStart { span: span_of(c, e) }, freeform_end(s, f)]
    }
}

/// The line at which parsing resumes after the freeform block whose
/// opening fence line ends at `e`.
pub open spec fn freeform_next(s: Seq<u8>, e: int) -> int {
    let f = fence_line(s, next_line(s, e));
    if f < s.len() {
        next_line(s, line_end(s, f))
    } else {
        s.len() as int
    }
}

/// The `!` at `c` opens a block directive: a name follows, and no `{`
/// follows the name.
pub open spec fn is_block_directive(s: Seq<u8>, c: int, e: int) -> bool {
    &&& 0 <= c && c + 1 < e <= s.len()
    &&& s[c] == BANG
    &&& is_ident_start(s[c + 1])
    &&& !(directive_name(s, c + 1, e).end < e && s[directive_name(s, c + 1, e).end] == LBRACE)
}

/// Mathematical model of a block: its events, the stack after it, and the
/// line at which parsing resumes.
pub struct BlockView {
    pub events: Seq<EventView>,
    pub frames: Seq<Frame>,
    pub next: int,
}

/// The events of the directive line whose `!` stands at `c`: the start,
/// then what follows the name as inline content.
pub open spec fn directive_events(s: Seq<u8>, c: int, e: int) -> Seq<EventView> {
    seq![directive_start(directive_name(s, c + 1, e), c)] + inline_events(
        s,
        run_end(s, directive_name(s, c + 1, e).end, e, ByteClass::Blank),
        e,
        run_end(s, directive_name(s, c + 1, e).end, e, ByteClass::Blank),
    )
}

/// The block that the line `[p, e)` with content at `c` is, under the
/// stack `frames`.
///
/// - A fence opens a freeform block.
/// - `!name` opens a directive; a raw one captures its body, any other
///   stays open for the lines that nest inside it.
/// - `|` opens an element, which stays open likewise.
/// - `:` starts a line of attributes.
/// - Every other line is prose, comments included.
#[verifier::opaque]
pub open spec fn block_at(s: Seq<u8>, p: int, c: int, e: int, frames: Seq<Frame>) -> BlockView {
    if is_fence(s, c, e) {
        BlockView { events: freeform_events(s, c, e), frames, next: freeform_next(s, e) }
    } else if is_block_directive(s, c, e) {
        if directive_name(s, c + 1, e).is_raw {
            BlockView {
                events: raw_events(s, p, c, e),
                frames,
                next: raw_body(s, next_line(s, e), p, c, None, e).next,
            }
        } else {
            BlockView {
                events: directive_events(s, c, e),
                frames: frames.push(
                    Frame { start: p as usize, end: c as usize, kind: FrameKind::Directive },
                ),
                next: next_line(s, e),
            }
        }
    } else if starts_element(s, c, e) {
        BlockView {
            events: element_events(s, c, e) + tail_events(s, header_at(s, c + 1, e).end, e, 0),
            frames: frames.push(
                Frame { start: p as usize, end: c as usize, kind: FrameKind::Element },
            ),
            next: next_line(s, e),
        }
    } else if 0 <= c < s.len() && s[c] == COLON {
        BlockView { events: tail_events(s, c, e, 0), frames, next: next_line(s, e) }
    } else {
        BlockView { events: inline_events(s, c, e, c), frames, next: next_line(s, e) }
    }
}

/// A block ends after its line's start and inside the buffer.
pub proof fn lemma_block_at_bounds(s: Seq<u8>, p: int, c: int, e: int, frames: Seq<Frame>)
    requires
        0 <= p <= c < e <= s.len(),
        e == line_end(s, p),
    ensures
        e <= block_at(s, p, c, e, frames).next <= s.len(),
        p < block_at(s, p, c, e, frames).next,
{
    reveal(block_at);
    lemma_line_bounds(s, p);
    lemma_fence_line_bounds(s, next_line(s, e));
    let f = fence_line(s, next_line(s, e));
    if f < s.len() {
        lemma_line_bounds(s, f);
    }
    lemma_raw_body_bounds(s, next_line(s, e), p, c, None, e, e);
}

/// Scans the body of a raw directive.
fn scan_raw_body(input: &[u8], start: usize, p: usize, c: usize, e: usize) -> (r: (
    Option<usize>,
    usize,
    usize,
))
    requires
        p <= c <= e <= start <= input@.len(),
    ensures
        r.0 is Some == raw_body(input@, start as int, p as int, c as int, None, e as int).first
            is Some,
        r.0 matches Some(f) ==> raw_body(
            input@,
            start as int,
            p as int,
            c as int,
            None,
            e as int,
        ).first == Some(f as int) && f <= r.1,
        r.1 == raw_body(input@, start as int, p as int, c as int, None, e as int).last,
        r.2 == raw_body(input@, start as int, p as int, c as int, None, e as int).next,
        e <= r.1 <= r.2 <= input@.len(),
        start <= r.2,
{
    let ghost s = input@;
    let ghost whole = raw_body(s, start as int, p as int, c as int, None, e as int);
    let mut l: usize = start;
    let mut first: Option<usize> = None;
    let mut last: usize = e;
    loop
        invariant_except_break
            p <= c <= e <= start <= l <= input@.len(),
            e <= last <= l,
            s == input@,
            first matches Some(f) ==> f <= last,
            whole == raw_body(
                s,
                l as int,
                p as int,
                c as int,
                match first {
                    Some(f) => Some(f as int),
                    None => None,
                },
                last as int,
            ),
        ensures
            start <= l <= input@.len(),
            e <= last <= l,
            first matches Some(f) ==> f <= last,
            whole == (RawScan {
                first: match first {
                    Some(f) => Some(f as int),
                    None => None,
                },
                last: last as int,
                next: l as int,
            }),
        decreases input@.len() - l,
    {
        if l >= input.len() {
            break ;
        }
        let (line_e, next) = scan_line(input, l);
        let k = scan_run(input, l, line_e, ByteClass::Blank);
        if k >= line_e {
            l = next;
        } else if c - p < k - l && is_indent_prefix(input, p, c, l, k) {
            if first.is_none() {
                first = Some(k);
            }
            last = next;
            l = next;
        } else {
            break ;
        }
    }
    (first, last, l)
}

/// Parses the raw directive whose `!` stands at `c` and captures its body.
fn parse_raw<'a>(input: &'a [u8], p: usize, c: usize, e: usize, events: &mut Vec<Event<'a>>) -> (next:
    usize)
    requires
        p <= c,
        c + 1 < e <= input@.len(),
        e == line_end(input@, p as int),
    ensures
        events_view(final(events)@) == events_view(old(events)@) + raw_events(
            input@,
            p as int,
            c as int,
            e as int,
        ),
        next == raw_body(
            input@,
            next_line(input@, e as int),
            p as int,
            c as int,
            None,
            e as int,
        ).next,
{
    let ghost s = input@;
    let ghost before = events_view(events@);
    let n = parse_directive_name(input, c + 1, e);
    let start = if e < input.len() {
        e + 1
    } else {
        e
    };
    let (first, last, next) = scan_raw_body(input, start, p, c, e);
    emit(
        events,
        Event::DirectiveStart {
            name: n.name,
            namespace: n.namespace,
            is_raw: n.is_raw,
            span: Span::new(c, n.end),
        },
    );
    match first {
        Some(f) => {
            emit(
                events,
                Event::RawContent { content: slice_subrange(input, f, last), span: Span::new(f, last) },
            );
        },
        None => {},
    }
    emit(events, Event::DirectiveEnd { span: Span::new(last, last) });
    assert(events_view(events@) =~= before + raw_events(s, p as int, c as int, e as int));
    next
}

fn fence_at(input: &[u8], c: usize, e: usize) -> (r: bool)
    requires
        c <= e <= input@.len(),
    ensures
        r == is_fence(input@, c as int, e as int),
{
    e - c >= 3 && input[c] == BACKTICK && input[c + 1] == BACKTICK && input[c + 2] == BACKTICK
}

/// Finds the line of the closing fence.
fn scan_fence_line(input: &[u8], start: usize) -> (f: usize)
    requires
        start <= input@.len(),
    ensures
        f == fence_line(input@, start as int),
        start <= f <= input@.len(),
{
    let ghost s = input@;
    let mut l: usize = start;
    loop
        invariant_except_break
            start <= l <= input@.len(),
            s == input@,
            fence_line(s, start as int) == fence_line(s, l as int),
        ensures
            start <= l <= input@.len(),
            l == fence_line(s, start as int),
        decreases input@.len() - l,
    {
        if l >= input.len() {
            break ;
        }
        let (line_e, next) = scan_line(input, l);
        let k = scan_run(input, l, line_e, ByteClass::Blank);
        if fence_at(input, k, line_e) {
            break ;
        }
        l = next;
    }
    l
}

/// Parses the freeform block whose opening fence stands at `c`.
fn parse_freeform<'a>(input: &'a [u8], c: usize, e: usize, events: &mut Vec<Event<'a>>) -> (next:
    usize)
    requires
        c <= e <= input@.len(),
    ensures
        events_view(final(events)@) == events_view(old(events)@) + freeform_events(
            input@,
            c as int,
            e as int,
        ),
        next == freeform_next(input@, e as int),
{
    let ghost s = input@;
    let ghost before = events_view(events@);
    let body = if e < input.len() {
        e + 1
    } else {
        e
    };
    let f = scan_fence_line(input, body);
    emit(events, Event::FreeformStart { span: Span::new(c, e) });
    if body < f {
        emit(
            events,
            Event::RawContent { content: slice_subrange(input, body, f), span: Span::new(body, f) },
        );
    }
    if f < input.len() {
        let (line_e, next) = scan_line(input, f);
        let k = scan_run(input, f, line_e, ByteClass::Blank);
        emit(events, Event::FreeformEnd { span: Span::new(k, line_e) });
        assert(events_view(events@) =~= before + freeform_events(s, c as int, e as int));
        next
    } else {
        emit(events, Event::FreeformEnd { span: Span::new(f, f) });
        assert(events_view(events@) =~= before + freeform_events(s, c as int, e as int));
        f
    }
}

/// Decides whether the `!` at `c` opens a block directive.
fn block_directive_at(input: &[u8], c: usize, e: usize) -> (r: bool)
    requires
        c < e <= input@.len(),
    ensures
        r == is_block_directive(input@, c as int, e as int),
{
    if input[c] == BANG && e - c > 1 && byte_is_ident_start(input[c + 1]) {
        let n = parse_directive_name(input, c + 1, e);
        !(n.end < e && input[n.end] == LBRACE)
    } else {
        false
    }
}

/// Parses the directive line whose `!` stands at `c`.
fn parse_directive<'a>(input: &'a [u8], c: usize, e: usize, events: &mut Vec<Event<'a>>)
    requires
        c + 1 < e <= input@.len(),
    ensures
        events_view(final(events)@) == events_view(old(events)@) + directive_events(
            input@,
            c as int,
            e as int,
        ),
{
    let ghost s = input@;
    let ghost before = events_view(events@);
    let n = parse_directive_name(input, c + 1, e);
    let b = scan_run(input, n.end, e, ByteClass::Blank);
    emit(
        events,
        Event::DirectiveStart {
            name: n.name,
            namespace: n.namespace,
            is_raw: n.is_raw,
            span: Span::new(c, n.end),
        },
    );
    scan_inline(input, b, e, events);
    assert(events_view(events@) =~= before + directive_events(s, c as int, e as int));
}

/// Parses the block that the line `[p, e)` with content at `c` is, and
/// appends its events. Returns the line at which parsing resumes.
pub fn parse_block<'a>(
    input: &'a [u8],
    p: usize,
    c: usize,
    e: usize,
    frames: &mut Vec<Frame>,
    events: &mut Vec<Event<'a>>,
) -> (next: usize)
    requires
        p <= c < e <= input@.len(),
        e == line_end(input@, p as int),
    ensures
        events_view(final(events)@) == events_view(old(events)@) + block_at(
            input@,
            p as int,
            c as int,
            e as int,
            old(frames)@,
        ).events,
        final(frames)@ == block_at(input@, p as int, c as int, e as int, old(frames)@).frames,
        next == block_at(input@, p as int, c as int, e as int, old(frames)@).next,
        p < next <= input@.len(),
        frames_within(old(frames)@, input@.len() as int) ==> frames_within(
            final(frames)@,
            input@.len() as int,
        ),
{
    let ghost s = input@;
    let ghost before = events_view(events@);
    proof {
        reveal(block_at);
        lemma_block_at_bounds(s, p as int, c as int, e as int, frames@);
    }
    let after = if e < input.len() {
        e + 1
    } else {
        e
    };
    if fence_at(input, c, e) {
        parse_freeform(input, c, e, events)
    } else if block_directive_at(input, c, e) {
        let n = parse_directive_name(input, c + 1, e);
        if n.is_raw {
            parse_raw(input, p, c, e, events)
        } else {
            parse_directive(input, c, e, events);
            frames.push(Frame { start: p, end: c, kind: FrameKind::Directive });
            after
        }
    } else if input[c] == BAR && !(e - c > 1 && input[c + 1] == LBRACE) {
        let end = open_element(input, c, e, events);
        scan_tail(input, end, e, events);
        frames.push(Frame { start: p, end: c, kind: FrameKind::Element });
        proof {
            let rest = tail_events(s, end as int, e as int, 0);
            assert((before + element_events(s, c as int, e as int)) + rest =~= before + (
            element_events(s, c as int, e as int) + rest));
        }
        after
    } else if input[c] == COLON {
        scan_tail(input, c, e, events);
        after
    } else {
        scan_inline(input, c, e, events);
        after
    }
}

} // verus!
