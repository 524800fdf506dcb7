//! What follows an element header on its line: further elements nested
//! rightward, attributes, and inline content.

use vstd::prelude::*;
use crate::attribute::{attribute_at, lemma_attribute_at_bounds, parse_attribute};
use crate::event::{emit, emit_all, events_view, Event, EventView};
use crate::header::{header_at, lemma_header_at_bounds, parse_header, HeaderScan};
use crate::inline::{inline_events, scan_inline};
use crate::lex::{run_end, scan_run, ByteClass, BAR, COLON, LBRACE};
use crate::span::{span_of, Span};

verus! {

/// The start event of the element whose `|` stands at `at`.
pub open spec fn element_start(h: HeaderScan, at: int) -> EventView {
    EventView::ElementStart {
        name: h.name,
        id: h.id,
        classes: h.classes,
        suffix: h.suffix,
        span: span_of(at, h.end),
    }
}

/// The events of the element header whose `|` stands at `k`: the start
/// event, then the header's diagnostics.
pub open spec fn element_events(s: Seq<u8>, k: int, e: int) -> Seq<EventView> {
    seq![element_start(header_at(s, k + 1, e), k)] + header_at(s, k + 1, e).errors
}

/// `depth` element ends at offset `at`.
pub open spec fn closers(depth: nat, at: int) -> Seq<EventView> {
    Seq::new(depth, |k: int| EventView::ElementEnd { span: span_of(at, at) })
}

/// A `|` at `k` that opens an element, not an embedded element.
pub open spec fn starts_element(s: Seq<u8>, k: int, e: int) -> bool {
    0 <= k < e <= s.len() && s[k] == BAR && !(k + 1 < e && s[k + 1] == LBRACE)
}

/// The events of the rest of a line from `q`, inside `depth` elements that
/// were opened rightward on this line.
///
/// After optional whitespace, a `|` opens one more nested element and a `:`
/// an attribute; anything else is inline content that runs to the line's
/// end. At the line's end the rightward elements are closed, innermost
/// first.
pub open spec fn tail_events(s: Seq<u8>, q: int, e: int, depth: nat) -> Seq<EventView>
    decreases e - q,
{
    let k = run_end(s, q, e, ByteClass::Blank);
    if !(0 <= q <= k < e <= s.len()) {
        closers(depth, e)
    } else if starts_element(s, k, e) {
        proof {
            lemma_header_at_bounds(s, k + 1, e);
        }
        element_events(s, k, e) + tail_events(s, header_at(s, k + 1, e).end, e, depth + 1)
    } else if s[k] == COLON {
        proof {
            lemma_attribute_at_bounds(s, k, e);
        }
        attribute_at(s, k, e).events + tail_events(s, attribute_at(s, k, e).end, e, depth)
    } else {
        inline_events(s, k, e, k) + closers(depth, e)
    }
}

/// Parses the element header whose `|` stands at `k` and appends its
/// events.
pub fn open_element<'a>(input: &'a [u8], k: usize, e: usize, events: &mut Vec<Event<'a>>) -> (end:
    usize)
    requires
        k < e <= input@.len(),
    ensures
        events_view(final(events)@) == events_view(old(events)@) + element_events(
            input@,
            k as int,
            e as int,
        ),
        end == header_at(input@, k + 1, e as int).end,
        k < end <= e,
{
    let ghost before = events_view(events@);
    let mut errors: Vec<Event<'a>> = Vec::new();
    let h = parse_header(input, k + 1, e, &mut errors);
    let ghost hs = header_at(input@, k + 1, e as int);
    assert(events_view(errors@) =~= hs.errors);
    let end = h.end;
    emit(
        events,
        Event::ElementStart {
            name: h.name,
            id: h.id,
            classes: h.classes,
            suffix: h.suffix,
            span: Span::new(k, end),
        },
    );
    emit_all(events, &mut errors);
    assert(events_view(events@) =~= before + element_events(input@, k as int, e as int));
    end
}

/// Appends `depth` element ends at offset `at`.
pub fn emit_closers<'a>(events: &mut Vec<Event<'a>>, depth: usize, at: usize)
    ensures
        events_view(final(events)@) == events_view(old(events)@) + closers(
            depth as nat,
            at as int,
        ),
{
    let ghost before = events_view(events@);
    let mut k: usize = 0;
    assert(before + closers(0, at as int) =~= before);
    while k < depth
        invariant
            k <= depth,
            events_view(events@) == before + closers(k as nat, at as int),
        decreases depth - k,
    {
        let ghost here = events_view(events@);
        emit(events, Event::ElementEnd { span: Span::new(at, at) });
        assert(here.push(EventView::ElementEnd { span: span_of(at as int, at as int) }) =~= before
            + closers((k + 1) as nat, at as int));
        k = k + 1;
    }
}

fn byte_starts_element(input: &[u8], k: usize, e: usize) -> (r: bool)
    requires
        k < e <= input@.len(),
    ensures
        r == starts_element(input@, k as int, e as int),
{
    input[k] == BAR && !(e - k > 1 && input[k + 1] == LBRACE)
}

/// Scans the rest of a line from `start` and appends its events.
pub fn scan_tail<'a>(input: &'a [u8], start: usize, e: usize, events: &mut Vec<Event<'a>>)
    requires
        start <= e <= input@.len(),
    ensures
        events_view(final(events)@) == events_view(old(events)@) + tail_events(
            input@,
            start as int,
            e as int,
            0,
        ),
{
    let ghost s = input@;
    let ghost before = events_view(events@);
    let ghost whole = tail_events(s, start as int, e as int, 0);
    let mut q: usize = start;
    let mut depth: usize = 0;
    loop
        invariant_except_break
            start <= q <= e <= input@.len(),
            depth <= q - start,
            s == input@,
            events_view(events@) + tail_events(s, q as int, e as int, depth as nat) == before
                + whole,
        ensures
            events_view(events@) == before + whole,
        decreases e - q,
    {
        let ghost here = events_view(events@);
        let k = scan_run(input, q, e, ByteClass::Blank);
        if k >= e {
            emit_closers(events, depth, e);
            break ;
        }
        if byte_starts_element(input, k, e) {
            let end = open_element(input, k, e, events);
            proof {
                let rest = tail_events(s, end as int, e as int, (depth + 1) as nat);
                assert((here + element_events(s, k as int, e as int)) + rest =~= here + (
                element_events(s, k as int, e as int) + rest));
            }
            q = end;
            depth = depth + 1;
        } else if input[k] == COLON {
            let end = parse_attribute(input, k, e, events);
            proof {
                let rest = tail_events(s, end as int, e as int, depth as nat);
                assert((here + attribute_at(s, k as int, e as int).events) + rest =~= here + (
                attribute_at(s, k as int, e as int).events + rest));
            }
            q = end;
        } else {
            scan_inline(input, k, e, events);
            emit_closers(events, depth, e);
            proof {
                assert((here + inline_events(s, k as int, e as int, k as int)) + closers(
                    depth as nat,
                    e as int,
                ) =~= here + (inline_events(s, k as int, e as int, k as int) + closers(
                    depth as nat,
                    e as int,
                )));
            }
            break ;
        }
    }
}

} // verus!
