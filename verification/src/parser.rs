//! The parser driver: it walks the buffer line by line, applies each
//! line's indentation to the stack of open blocks, and hands the line to
//! the block parser.

use vstd::prelude::*;
use crate::balance::{balanced, lemma_balanced};
use crate::depth::{lemma_well_nested, well_nested};
use crate::block::{
    block_at, lemma_line_bounds, line_end, next_line, parse_block, scan_line, BlockView,
};
use crate::event::{events_view, Event, EventView};
use crate::indent::{
    close_events, close_frames, dedent, dedent_events, dedent_of, frames_within, Frame,
};
use crate::lex::{lemma_run_end, run_end, scan_run, ByteClass, NEWLINE, SPACE, TAB};
use crate::order::{lemma_spans_within, lemma_starts_ordered, spans_within, starts_ordered};

verus! {

/// What the line that starts at `p` yields under the stack `frames`.
///
/// A blank line yields nothing and leaves the stack alone. Any other line
/// first closes the frames that it does not nest inside, then yields the
/// events of its block.
pub open spec fn line_at(s: Seq<u8>, p: int, frames: Seq<Frame>) -> BlockView {
    let e = line_end(s, p);
    let c = run_end(s, p, e, ByteClass::Blank);
    let block = block_at(s, p, c, e, frames.take(dedent_of(s, frames, p, c).keep as int));
    if c >= e {
        BlockView { events: Seq::empty(), frames, next: next_line(s, e) }
    } else {
        BlockView {
            events: dedent_events(s, frames, p, c) + block.events,
            frames: block.frames,
            next: block.next,
        }
    }
}

/// The events of the buffer from the line that starts at `p`, under the
/// stack `frames`: the events of that line, then those of the lines after
/// it. At the buffer's end every frame still open is closed, innermost
/// first.
pub open spec fn events_from(s: Seq<u8>, p: int, frames: Seq<Frame>) -> Seq<EventView>
    decreases s.len() - p,
{
    if !(0 <= p < s.len()) {
        close_events(frames, 0, s.len() as int)
    } else if p < line_at(s, p, frames).next <= s.len() {
        line_at(s, p, frames).events + events_from(
            s,
            line_at(s, p, frames).next,
            line_at(s, p, frames).frames,
        )
    } else {
        line_at(s, p, frames).events
    }
}

/// The events of a whole buffer.
pub open spec fn document_events(s: Seq<u8>) -> Seq<EventView> {
    events_from(s, 0, Seq::empty())
}

/// A streaming parser over one byte buffer. The buffer is supplied once and
/// outlives every event.
pub struct Parser<'a> {
    input: &'a [u8],
}

impl<'a> Parser<'a> {
    /// The bytes that this parser reads.
    pub closed spec fn source(&self) -> Seq<u8> {
        self.input@
    }

    /// A parser over `input`.
    pub fn new(input: &'a [u8]) -> (parser: Self)
        ensures
            parser.source() == input@,
    {
        Parser { input }
    }

    /// Parses the buffer to its end and returns its events in document
    /// order.
    pub fn parse(&mut self) -> (events: Vec<Event<'a>>)
        ensures
            events_view(events@) == document_events(old(self).source()),
            final(self).source() == old(self).source(),
            balanced(events_view(events@)),
            well_nested(events_view(events@)),
            old(self).source().len() <= u32::MAX ==> spans_within(
                events_view(events@),
                old(self).source().len() as int,
            ) && starts_ordered(events_view(events@)),
    {
        parse_document(self.input)
    }
}

/// Parses the line that starts at `p` and appends its events. Returns the
/// line at which parsing resumes.
pub fn parse_line<'a>(
    input: &'a [u8],
    p: usize,
    frames: &mut Vec<Frame>,
    events: &mut Vec<Event<'a>>,
) -> (next: usize)
    requires
        p < input@.len(),
        frames_within(old(frames)@, input@.len() as int),
    ensures
        events_view(final(events)@) == events_view(old(events)@) + line_at(
            input@,
            p as int,
            old(frames)@,
        ).events,
        final(frames)@ == line_at(input@, p as int, old(frames)@).frames,
        next == line_at(input@, p as int, old(frames)@).next,
        p < next <= input@.len(),
        frames_within(final(frames)@, input@.len() as int),
{
    let ghost s = input@;
    let ghost here = events_view(events@);
    let ghost open = frames@;
    let (e, next) = scan_line(input, p);
    let c = scan_run(input, p, e, ByteClass::Blank);
    if c >= e {
        assert(here + Seq::<EventView>::empty() =~= here);
        next
    } else {
        dedent(input, frames, p, c, events);
        let ghost kept = frames@;
        let resume = parse_block(input, p, c, e, frames, events);
        proof {
            let block = block_at(s, p as int, c as int, e as int, kept);
            assert((here + dedent_events(s, open, p as int, c as int)) + block.events =~= here + (
            dedent_events(s, open, p as int, c as int) + block.events));
        }
        resume
    }
}

/// Parses `input` to its end.
pub fn parse_document<'a>(input: &'a [u8]) -> (events: Vec<Event<'a>>)
    ensures
        events_view(events@) == document_events(input@),
        balanced(events_view(events@)),
        well_nested(events_view(events@)),
        input@.len() <= u32::MAX ==> spans_within(events_view(events@), input@.len() as int)
            && starts_ordered(events_view(events@)),
{
    let ghost s = input@;
    let mut events: Vec<Event<'a>> = Vec::new();
    let mut frames: Vec<Frame> = Vec::new();
    let mut p: usize = 0;
    assert(events_view(events@) + document_events(s) =~= document_events(s));
    while p < input.len()
        invariant
            p <= input@.len(),
            s == input@,
            frames_within(frames@, input@.len() as int),
            events_view(events@) + events_from(s, p as int, frames@) == document_events(s),
        decreases input@.len() - p,
    {
        let ghost here = events_view(events@);
        let ghost line = line_at(s, p as int, frames@);
        let next = parse_line(input, p, &mut frames, &mut events);
        proof {
            let rest = events_from(s, next as int, frames@);
            assert((here + line.events) + rest =~= here + (line.events + rest));
        }
        p = next;
    }
    close_frames(&mut frames, 0, input.len(), &mut events);
    proof {
        lemma_balanced(s);
        lemma_well_nested(s);
        if s.len() <= u32::MAX {
            lemma_spans_within(s);
            lemma_starts_ordered(s);
        }
    }
    events
}

/// Parsing is a function of the bytes: two buffers that hold the same bytes
/// have the same events, spans and payloads included. With the contract of
/// [`Parser::parse`], two parses of the same bytes return events with the
/// same models.
pub proof fn lemma_same_bytes_same_events(a: Seq<u8>, b: Seq<u8>)
    requires
        a.len() == b.len(),
        forall|i: int| 0 <= i < a.len() ==> a[i] == b[i],
    ensures
        document_events(a) == document_events(b),
{
    assert(a =~= b);
}

/// An empty buffer has no events.
pub proof fn lemma_empty_document(s: Seq<u8>)
    requires
        s.len() == 0,
    ensures
        document_events(s) == Seq::<EventView>::empty(),
{
    assert(close_events(Seq::<Frame>::empty(), 0, 0) =~= Seq::<EventView>::empty());
}

/// A byte of a blank line: a space, a tab or a newline.
pub open spec fn is_blank_byte(b: u8) -> bool {
    b == SPACE || b == TAB || b == NEWLINE
}

/// A run over bytes of its class alone reaches the window's end.
proof fn lemma_run_end_full(s: Seq<u8>, i: int, e: int, class: ByteClass)
    requires
        0 <= i <= e <= s.len(),
        forall|k: int| i <= k < e ==> class.has(#[trigger] s[k]),
    ensures
        run_end(s, i, e, class) == e,
    decreases e - i,
{
    if i < e {
        lemma_run_end_full(s, i + 1, e, class);
    }
}

proof fn lemma_blank_from(s: Seq<u8>, p: int)
    requires
        0 <= p <= s.len(),
        forall|i: int| 0 <= i < s.len() ==> is_blank_byte(#[trigger] s[i]),
    ensures
        events_from(s, p, Seq::empty()) == Seq::<EventView>::empty(),
    decreases s.len() - p,
{
    let none = Seq::<Frame>::empty();
    assert(close_events(none, 0, s.len() as int) =~= Seq::<EventView>::empty());
    if p < s.len() {
        lemma_line_bounds(s, p);
        let e = line_end(s, p);
        lemma_run_end(s, p, s.len() as int, ByteClass::InLine);
        lemma_run_end_full(s, p, e, ByteClass::Blank);
        lemma_blank_from(s, next_line(s, e));
        assert(Seq::<EventView>::empty() + Seq::<EventView>::empty() =~= Seq::<EventView>::empty());
    }
}

/// A buffer made of blank lines alone has no events: lines that hold
/// nothing, or nothing but spaces and tabs, with or without a newline at
/// the buffer's end.
pub proof fn lemma_blank_document(s: Seq<u8>)
    requires
        forall|i: int| 0 <= i < s.len() ==> is_blank_byte(#[trigger] s[i]),
    ensures
        document_events(s) == Seq::<EventView>::empty(),
{
    lemma_blank_from(s, 0);
}

} // verus!
