//! Byte ranges and source locations.

use vstd::prelude::*;
use crate::lex::NEWLINE;

verus! {

/// Half-open byte range `[start, end)` into the source buffer.
#[derive(Debug, Clone, Copy, PartialEq, Eq, Structural)]
pub struct Span {
    pub start: u32,
    pub end: u32,
}

/// The span from offset `start` to offset `end`.
pub open spec fn span_of(start: int, end: int) -> Span {
    Span { start: start as u32, end: end as u32 }
}

impl Span {
    /// The span is ordered and lies inside a buffer of `len` bytes.
    pub open spec fn within(self, len: int) -> bool {
        self.start <= self.end && self.end <= len
    }

    /// Builds a span from two offsets. Offsets are kept modulo 2^32: buffers
    /// are bounded to 4 GiB, and within that bound both offsets are exact.
    #[inline]
    pub fn new(start: usize, end: usize) -> (s: Span)
        ensures
            s == span_of(start as int, end as int),
            start <= u32::MAX ==> s.start == start,
            end <= u32::MAX ==> s.end == end,
    {
        Span { start: #[verifier::truncate] (start as u32), end: #[verifier::truncate] (end as u32) }
    }

    /// The empty span at offset zero.
    #[inline]
    pub fn empty() -> (s: Span)
        ensures
            s.start == 0,
            s.end == 0,
    {
        Span { start: 0, end: 0 }
    }

    /// Number of bytes covered.
    #[inline]
    pub fn len(&self) -> (n: usize)
        requires
            self.start <= self.end,
        ensures
            n == self.end - self.start,
    {
        (self.end - self.start) as usize
    }

    /// Whether the span covers no byte.
    #[inline]
    pub fn is_empty(&self) -> (b: bool)
        ensures
            b == (self.start == self.end),
    {
        self.start == self.end
    }
}

impl Default for Span {
    fn default() -> (s: Span)
        ensures
            s.start == 0,
            s.end == 0,
    {
        Span { start: 0, end: 0 }
    }
}

/// Source location for diagnostics: one-based line, one-based column, and
/// the byte offset they stand for.
#[derive(Debug, Clone, Copy)]
pub struct Location {
    pub line: u32,
    pub column: u32,
    pub byte_offset: u32,
}

/// The newlines among the first `offset` bytes.
pub open spec fn newlines_before(s: Seq<u8>, offset: int) -> int
    decreases offset,
{
    if offset <= 0 || offset > s.len() {
        0
    } else if s[offset - 1] == NEWLINE {
        newlines_before(s, offset - 1) + 1
    } else {
        newlines_before(s, offset - 1)
    }
}

/// Start of the line that holds `offset`: just after the last newline among
/// the first `offset` bytes, or zero.
pub open spec fn line_start(s: Seq<u8>, offset: int) -> int
    decreases offset,
{
    if offset <= 0 || offset > s.len() {
        0
    } else if s[offset - 1] == NEWLINE {
        offset
    } else {
        line_start(s, offset - 1)
    }
}

/// The offset itself, or the buffer's length if the offset is past it.
pub open spec fn clamped(s: Seq<u8>, offset: int) -> int {
    if offset <= s.len() {
        offset
    } else {
        s.len() as int
    }
}

/// The location of the byte offset `at`: its line and its column, both
/// counted from one, and the offset itself, each kept modulo 2^32.
pub open spec fn located(s: Seq<u8>, at: int) -> Location {
    Location {
        line: #[verifier::truncate]
        ((1 + newlines_before(s, at)) as u32),
        column: #[verifier::truncate]
        ((1 + at - line_start(s, at)) as u32),
        byte_offset: #[verifier::truncate]
        (at as u32),
    }
}

/// A line starts at or before any of its offsets, and there are no more
/// newlines before an offset than bytes.
pub proof fn lemma_line_start_bounds(s: Seq<u8>, offset: int)
    requires
        0 <= offset <= s.len(),
    ensures
        0 <= line_start(s, offset) <= offset,
        0 <= newlines_before(s, offset) <= offset,
    decreases offset,
{
    if offset > 0 {
        lemma_line_start_bounds(s, offset - 1);
    }
}

impl Location {
    /// The location of a byte offset in `input`, found by scanning for
    /// newlines up to it. Lines and columns count from one, columns in
    /// bytes; an offset past the buffer's end stands for the end. As in
    /// [`Location::new`], numbers are kept modulo 2^32.
    pub fn at(input: &[u8], offset: usize) -> (l: Location)
        ensures
            l == located(input@, clamped(input@, offset as int)),
            input@.len() < u32::MAX ==> l.line == 1 + newlines_before(
                input@,
                clamped(input@, offset as int),
            ) && l.column == 1 + clamped(input@, offset as int) - line_start(
                input@,
                clamped(input@, offset as int),
            ) && l.byte_offset == clamped(input@, offset as int),
    {
        let end = if offset <= input.len() {
            offset
        } else {
            input.len()
        };
        let mut lines: usize = 0;
        let mut start: usize = 0;
        let mut k: usize = 0;
        while k < end
            invariant
                k <= end <= input@.len(),
                lines == newlines_before(input@, k as int),
                start == line_start(input@, k as int),
                lines <= k,
                start <= k,
            decreases end - k,
        {
            if input[k] == NEWLINE {
                lines = lines + 1;
                start = k + 1;
            }
            k = k + 1;
        }
        let line: u128 = lines as u128 + 1;
        let column: u128 = (end - start) as u128 + 1;
        proof {
            lemma_line_start_bounds(input@, end as int);
        }
        Location {
            line: #[verifier::truncate]
            (line as u32),
            column: #[verifier::truncate]
            (column as u32),
            byte_offset: #[verifier::truncate]
            (end as u32),
        }
    }

    /// A location from its parts. The offset is kept modulo 2^32.
    #[inline]
    pub fn new(line: u32, column: u32, byte_offset: usize) -> (l: Location)
        ensures
            l.line == line,
            l.column == column,
            l.byte_offset == byte_offset as u32,
            byte_offset <= u32::MAX ==> l.byte_offset == byte_offset,
    {
        Location { line, column, byte_offset: #[verifier::truncate] (byte_offset as u32) }
    }
}

impl Default for Location {
    fn default() -> (l: Location)
        ensures
            l.line == 0,
            l.column == 0,
            l.byte_offset == 0,
    {
        Location { line: 0, column: 0, byte_offset: 0 }
    }
}

} // verus!
