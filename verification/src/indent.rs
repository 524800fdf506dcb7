//! The indentation stack: one frame per open element or directive, closed
//! when a line no longer nests inside it.

use vstd::prelude::*;
use crate::event::{emit, error_event, events_view, push_error, ErrorKind, Event, EventView};
use crate::span::{span_of, Span};

verus! {

/// The kinds of blocks that stay open across lines.
#[derive(Clone, Copy, Debug, PartialEq, Eq, Structural)]
pub enum FrameKind {
    Element,
    Directive,
}

/// An open block: its kind, and the range `[start, end)` of the
/// indentation bytes of the line that opened it.
#[derive(Clone, Copy, Debug)]
pub struct Frame {
    pub start: usize,
    pub end: usize,
    pub kind: FrameKind,
}

/// The bytes `[a, a_end)` are a prefix of the bytes `[b, b_end)`.
pub open spec fn indent_prefix(s: Seq<u8>, a: int, a_end: int, b: int, b_end: int) -> bool {
    &&& 0 <= a <= a_end <= s.len()
    &&& 0 <= b <= b_end <= s.len()
    &&& a_end - a <= b_end - b
    &&& s.subrange(a, a_end) == s.subrange(b, b + (a_end - a))
}

/// A line whose indentation is `[p, c)` nests inside `frame`: the frame's
/// indentation is a prefix of the line's, and shorter. Indentation is
/// compared byte by byte; a tab is one byte like any other.
pub open spec fn nests(s: Seq<u8>, frame: Frame, p: int, c: int) -> bool {
    indent_prefix(s, frame.start as int, frame.end as int, p, c) && frame.end - frame.start < c
        - p
}

/// Every frame's indentation lies inside a buffer of `len` bytes.
pub open spec fn frames_within(frames: Seq<Frame>, len: int) -> bool {
    forall|k: int| 0 <= k < frames.len() ==> (#[trigger] frames[k]).start <= frames[k].end <= len
}

/// The event that closes a block of `kind` at offset `at`.
pub open spec fn end_event(kind: FrameKind, at: int) -> EventView {
    match kind {
        FrameKind::Element => EventView::ElementEnd { span: span_of(at, at) },
        FrameKind::Directive => EventView::DirectiveEnd { span: span_of(at, at) },
    }
}

/// What a line does to the stack: how many frames stay open, and whether
/// the line's indentation clashes with a frame that it closes.
pub struct Dedent {
    pub keep: nat,
    pub clash: bool,
}

/// The frames are closed from the top down to the first one that the line
/// nests inside. A closed frame whose indentation does not start with the
/// line's indentation clashes with it: neither is a prefix of the other.
pub open spec fn dedent_of(s: Seq<u8>, frames: Seq<Frame>, p: int, c: int) -> Dedent
    decreases frames.len(),
{
    if frames.len() == 0 {
        Dedent { keep: 0, clash: false }
    } else if nests(s, frames.last(), p, c) {
        Dedent { keep: frames.len(), clash: false }
    } else {
        Dedent {
            keep: dedent_of(s, frames.drop_last(), p, c).keep,
            clash: dedent_of(s, frames.drop_last(), p, c).clash || !indent_prefix(
                s,
                p,
                c,
                frames.last().start as int,
                frames.last().end as int,
            ),
        }
    }
}

/// The end events of the frames above the lowest `keep`, innermost first,
/// all at offset `at`.
pub open spec fn close_events(frames: Seq<Frame>, keep: nat, at: int) -> Seq<EventView>
    decreases frames.len(),
{
    if frames.len() <= keep {
        Seq::empty()
    } else {
        seq![end_event(frames.last().kind, at)] + close_events(frames.drop_last(), keep, at)
    }
}

/// The events that a line with indentation `[p, c)` causes before its own:
/// a diagnostic over the indentation if it clashes, then the end events of
/// the frames that it closes, at the line's first byte after the
/// indentation.
pub open spec fn dedent_events(s: Seq<u8>, frames: Seq<Frame>, p: int, c: int) -> Seq<EventView> {
    let d = dedent_of(s, frames, p, c);
    if d.clash {
        seq![error_event(ErrorKind::InconsistentIndentation, p, c)] + close_events(
            frames,
            d.keep,
            c,
        )
    } else {
        close_events(frames, d.keep, c)
    }
}

/// A dedent keeps no more frames than there are.
pub proof fn lemma_dedent_of_bounds(s: Seq<u8>, frames: Seq<Frame>, p: int, c: int)
    ensures
        dedent_of(s, frames, p, c).keep <= frames.len(),
    decreases frames.len(),
{
    if frames.len() > 0 && !nests(s, frames.last(), p, c) {
        lemma_dedent_of_bounds(s, frames.drop_last(), p, c);
    }
}

/// A line indented by exactly one byte more than the innermost frame nests
/// inside it: the line closes no frame.
pub proof fn lemma_one_deeper_nests(s: Seq<u8>, frames: Seq<Frame>, p: int, c: int)
    requires
        frames.len() > 0,
        indent_prefix(s, frames.last().start as int, frames.last().end as int, p, c),
        c - p == frames.last().end - frames.last().start + 1,
    ensures
        nests(s, frames.last(), p, c),
        dedent_of(s, frames, p, c).keep == frames.len(),
        !dedent_of(s, frames, p, c).clash,
        dedent_events(s, frames, p, c) == Seq::<EventView>::empty(),
{
    assert(close_events(frames, frames.len(), c) =~= Seq::<EventView>::empty());
}

/// Decides whether the bytes `[a, a_end)` are a prefix of `[b, b_end)`.
pub fn is_indent_prefix(input: &[u8], a: usize, a_end: usize, b: usize, b_end: usize) -> (r: bool)
    requires
        a <= a_end <= input@.len(),
        b <= b_end <= input@.len(),
    ensures
        r == indent_prefix(input@, a as int, a_end as int, b as int, b_end as int),
{
    let n = a_end - a;
    if n > b_end - b {
        return false;
    }
    let ghost x = input@.subrange(a as int, a_end as int);
    let ghost y = input@.subrange(b as int, b + n);
    let mut k: usize = 0;
    while k < n
        invariant
            k <= n,
            n == a_end - a,
            n <= b_end - b,
            a <= a_end <= input@.len(),
            b <= b_end <= input@.len(),
            x == input@.subrange(a as int, a_end as int),
            y == input@.subrange(b as int, b + n),
            forall|j: int| 0 <= j < k ==> #[trigger] x[j] == y[j],
        decreases n - k,
    {
        if input[a + k] != input[b + k] {
            assert(x[k as int] != y[k as int]);
            return false;
        }
        assert(x[k as int] == y[k as int]);
        k = k + 1;
    }
    assert(x =~= y);
    true
}

/// Decides whether a line with indentation `[p, c)` nests inside `frame`.
pub fn line_nests(input: &[u8], frame: Frame, p: usize, c: usize) -> (r: bool)
    requires
        frame.start <= frame.end <= input@.len(),
        p <= c <= input@.len(),
    ensures
        r == nests(input@, frame, p as int, c as int),
{
    frame.end - frame.start < c - p && is_indent_prefix(input, frame.start, frame.end, p, c)
}

/// Closes the frames above the lowest `keep` and appends their end events.
pub fn close_frames<'a>(
    frames: &mut Vec<Frame>,
    keep: usize,
    at: usize,
    events: &mut Vec<Event<'a>>,
)
    requires
        keep <= old(frames)@.len(),
    ensures
        final(frames)@ == old(frames)@.take(keep as int),
        events_view(final(events)@) == events_view(old(events)@) + close_events(
            old(frames)@,
            keep as nat,
            at as int,
        ),
{
    let ghost before = events_view(events@);
    let ghost all = frames@;
    assert(all.take(all.len() as int) =~= all);
    while frames.len() > keep
        invariant
            keep <= frames@.len() <= all.len(),
            frames@ == all.take(frames@.len() as int),
            events_view(events@) + close_events(frames@, keep as nat, at as int) == before
                + close_events(all, keep as nat, at as int),
        decreases frames@.len(),
    {
        let ghost here = events_view(events@);
        let ghost open = frames@;
        let frame = frames.pop().unwrap();
        let event = match frame.kind {
            FrameKind::Element => Event::ElementEnd { span: Span::new(at, at) },
            FrameKind::Directive => Event::DirectiveEnd { span: Span::new(at, at) },
        };
        emit(events, event);
        proof {
            assert(frames@ =~= open.drop_last());
            assert(frames@ =~= all.take(frames@.len() as int));
            let rest = close_events(frames@, keep as nat, at as int);
            assert(here.push(end_event(frame.kind, at as int)) + rest =~= here + (seq![
                end_event(frame.kind, at as int),
            ] + rest));
        }
    }
    assert(events_view(events@) + Seq::<EventView>::empty() =~= events_view(events@));
}

/// Applies a line with indentation `[p, c)` to the stack: reports a clash,
/// closes the frames that the line does not nest inside, and appends their
/// end events.
pub fn dedent<'a>(
    input: &'a [u8],
    frames: &mut Vec<Frame>,
    p: usize,
    c: usize,
    events: &mut Vec<Event<'a>>,
)
    requires
        p <= c <= input@.len(),
        frames_within(old(frames)@, input@.len() as int),
    ensures
        final(frames)@ == old(frames)@.take(
            dedent_of(input@, old(frames)@, p as int, c as int).keep as int,
        ),
        frames_within(final(frames)@, input@.len() as int),
        events_view(final(events)@) == events_view(old(events)@) + dedent_events(
            input@,
            old(frames)@,
            p as int,
            c as int,
        ),
{
    let ghost s = input@;
    let ghost before = events_view(events@);
    let ghost all = frames@;
    let ghost whole = dedent_of(s, all, p as int, c as int);
    let mut keep: usize = frames.len();
    let mut clash: bool = false;
    assert(all.take(all.len() as int) =~= all);
    loop
        invariant_except_break
            keep <= frames@.len(),
            frames@ == all,
            s == input@,
            p <= c <= input@.len(),
            frames_within(all, input@.len() as int),
            whole.keep == dedent_of(s, all.take(keep as int), p as int, c as int).keep,
            whole.clash == (dedent_of(s, all.take(keep as int), p as int, c as int).clash
                || clash),
        ensures
            keep <= frames@.len(),
            frames@ == all,
            whole.keep == keep,
            whole.clash == clash,
        decreases keep,
    {
        if keep == 0 {
            break ;
        }
        let frame = frames[keep - 1];
        assert(all.take(keep as int).last() == frame);
        assert(all.take(keep as int).drop_last() =~= all.take(keep - 1));
        if line_nests(input, frame, p, c) {
            break ;
        }
        if !is_indent_prefix(input, p, c, frame.start, frame.end) {
            clash = true;
        }
        keep = keep - 1;
    }
    if clash {
        push_error(events, ErrorKind::InconsistentIndentation, p, c);
    }
    let ghost mid = events_view(events@);
    close_frames(frames, keep, c, events);
    proof {
        let closing = close_events(all, keep as nat, c as int);
        if clash {
            assert(before.push(
                error_event(ErrorKind::InconsistentIndentation, p as int, c as int),
            ) + closing =~= before + (seq![
                error_event(ErrorKind::InconsistentIndentation, p as int, c as int),
            ] + closing));
        }
    }
}

} // verus!
