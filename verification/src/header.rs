//! The element header parser: `name[id].class.class<suffix>`, read after
//! the `|` of an element or the `|{` of an embedded element.

use vstd::prelude::*;
use vstd::slice::slice_subrange;
use crate::event::{
    error_event, events_view, option_bytes, push_error, slices_view, ErrorKind, Event, EventView,
};
use crate::lex::{
    byte_is_ident_start, byte_is_space, is_ident_start, is_space, lemma_run_end, run_end, scan_run,
    ByteClass, BANG, BAR, COLON, DOT, LBRACE, LBRACKET, PLUS, QUESTION, RBRACKET, SEMICOLON, STAR,
};
use crate::value::{option_view, Value, ValueView};
use crate::values::{lemma_value_at_bounds, scan_value, value_at};

verus! {

/// A parsed element header.
pub struct Header<'a> {
    pub name: Option<&'a [u8]>,
    pub id: Option<Value<'a>>,
    pub classes: Vec<&'a [u8]>,
    pub suffix: Option<char>,
    /// Offset just past the header.
    pub end: usize,
}

/// Mathematical model of a header scan, with the diagnostics met on the way.
pub struct HeaderScan {
    pub name: Option<Seq<u8>>,
    pub id: Option<ValueView>,
    pub classes: Seq<Seq<u8>>,
    pub suffix: Option<char>,
    pub end: int,
    pub errors: Seq<EventView>,
}

/// What scanning the `[id]` part yields.
pub struct IdScan {
    pub id: Option<ValueView>,
    pub end: int,
    pub errors: Seq<EventView>,
    /// Whether the closing `]` was missing, which ends the header.
    pub broken: bool,
}

/// What scanning the `.class` parts yields.
pub struct ClassScan {
    pub classes: Seq<Seq<u8>>,
    pub end: int,
    /// Whether a `.` was not followed by an identifier, which ends the header.
    pub bad: bool,
}

/// End of the identifier that starts at `p`, or `p` when none starts there.
pub open spec fn name_end(s: Seq<u8>, p: int, e: int) -> int {
    if 0 <= p < e <= s.len() && is_ident_start(s[p]) {
        run_end(s, p, e, ByteClass::Ident)
    } else {
        p
    }
}

/// One past `q`, but never past `e`.
pub open spec fn next_within(q: int, e: int) -> int {
    if q < e {
        q + 1
    } else {
        q
    }
}

/// The `[id]` part at `n`. The brackets hold exactly one value; empty
/// brackets are a structural byte out of place. Without the closing `]` the
/// header is given up and scanning resumes at the next whitespace.
pub open spec fn id_at(s: Seq<u8>, n: int, e: int) -> IdScan {
    if 0 <= n < e <= s.len() && s[n] == LBRACKET {
        let v = value_at(s, n + 1, e, true);
        if n < v.end < e && s[v.end] == RBRACKET {
            IdScan {
                id: v.value,
                end: v.end + 1,
                errors: if v.value is None {
                    v.errors.push(error_event(ErrorKind::UnexpectedCharacter, v.end, v.end + 1))
                } else {
                    v.errors
                },
                broken: false,
            }
        } else {
            IdScan {
                id: v.value,
                end: run_end(s, v.end, e, ByteClass::Solid),
                errors: v.errors.push(error_event(ErrorKind::MissingBracket, v.end, v.end)),
                broken: true,
            }
        }
    } else {
        IdScan { id: None, end: n, errors: Seq::empty(), broken: false }
    }
}

/// The `.class` parts at `q`, in source order.
pub open spec fn classes_at(s: Seq<u8>, q: int, e: int) -> ClassScan
    decreases e - q,
{
    if 0 <= q < e <= s.len() && s[q] == DOT {
        if q + 1 < e && is_ident_start(s[q + 1]) {
            proof {
                lemma_run_end(s, q + 1, e, ByteClass::Ident);
            }
            let c = run_end(s, q + 1, e, ByteClass::Ident);
            let rest = classes_at(s, c, e);
            ClassScan {
                classes: seq![s.subrange(q + 1, c)] + rest.classes,
                end: rest.end,
                bad: rest.bad,
            }
        } else {
            ClassScan { classes: Seq::empty(), end: q + 1, bad: true }
        }
    } else {
        ClassScan { classes: Seq::empty(), end: q, bad: false }
    }
}

/// The suffix at `q`: `?`, `*`, `+`, or a `!` that does not open an inline
/// construct (`!{` or `!name`).
pub open spec fn suffix_at(s: Seq<u8>, q: int, e: int) -> Option<char> {
    if !(0 <= q < e <= s.len()) {
        None
    } else if s[q] == QUESTION {
        Some('?')
    } else if s[q] == STAR {
        Some('*')
    } else if s[q] == PLUS {
        Some('+')
    } else if s[q] == BANG && !(q + 1 < e && (s[q + 1] == LBRACE || is_ident_start(s[q + 1]))) {
        Some('!')
    } else {
        None
    }
}

/// Bytes before which a header ends.
pub open spec fn is_header_stop(b: u8) -> bool {
    is_space(b) || b == BAR || b == COLON || b == BANG || b == SEMICOLON
}

/// The header that starts at `p` in the window that ends at `e`: an optional
/// name, an optional `[id]`, any number of `.class`, an optional suffix.
///
/// The header must end at the window's end or before whitespace, `|`, `:`,
/// `!` or `;`. A byte that fits nowhere is reported (as a malformed header
/// when nothing was read, as an unknown suffix after a header without
/// suffix, as an unexpected character after a suffix), and so is a `.`
/// without identifier; the header then runs to the next whitespace.
pub open spec fn header_at(s: Seq<u8>, p: int, e: int) -> HeaderScan {
    let n = name_end(s, p, e);
    let name = if n > p {
        Some(s.subrange(p, n))
    } else {
        None
    };
    let i = id_at(s, n, e);
    let c = classes_at(s, i.end, e);
    let suffix = suffix_at(s, c.end, e);
    let q = if suffix is Some {
        c.end + 1
    } else {
        c.end
    };
    if i.broken {
        HeaderScan {
            name,
            id: i.id,
            classes: Seq::empty(),
            suffix: None,
            end: i.end,
            errors: i.errors,
        }
    } else if c.bad {
        HeaderScan {
            name,
            id: i.id,
            classes: c.classes,
            suffix: None,
            end: run_end(s, c.end, e, ByteClass::Solid),
            errors: i.errors.push(
                error_event(ErrorKind::MalformedHeader, c.end, next_within(c.end, e)),
            ),
        }
    } else if 0 <= q < e <= s.len() && !is_header_stop(s[q]) {
        HeaderScan {
            name,
            id: i.id,
            classes: c.classes,
            suffix,
            end: run_end(s, q, e, ByteClass::Solid),
            errors: i.errors.push(
                error_event(
                    if suffix is Some {
                        ErrorKind::UnexpectedCharacter
                    } else if q == p {
                        ErrorKind::MalformedHeader
                    } else {
                        ErrorKind::UnknownSuffix
                    },
                    q,
                    q + 1,
                ),
            ),
        }
    } else {
        HeaderScan { name, id: i.id, classes: c.classes, suffix, end: q, errors: i.errors }
    }
}

/// A header ends inside its window.
pub proof fn lemma_classes_at_bounds(s: Seq<u8>, q: int, e: int)
    requires
        0 <= q <= e <= s.len(),
    ensures
        q <= classes_at(s, q, e).end <= e,
    decreases e - q,
{
    if q < e && s[q] == DOT && q + 1 < e && is_ident_start(s[q + 1]) {
        lemma_run_end(s, q + 1, e, ByteClass::Ident);
        lemma_classes_at_bounds(s, run_end(s, q + 1, e, ByteClass::Ident), e);
    }
}

/// A header ends inside its window.
pub proof fn lemma_header_at_bounds(s: Seq<u8>, p: int, e: int)
    requires
        0 <= p <= e <= s.len(),
    ensures
        p <= header_at(s, p, e).end <= e,
{
    lemma_run_end(s, p, e, ByteClass::Ident);
    let n = name_end(s, p, e);
    let i = id_at(s, n, e);
    if n < e && s[n] == LBRACKET {
        lemma_value_at_bounds(s, n + 1, e, true);
        lemma_run_end(s, value_at(s, n + 1, e, true).end, e, ByteClass::Solid);
    }
    lemma_classes_at_bounds(s, i.end, e);
    let c = classes_at(s, i.end, e);
    lemma_run_end(s, c.end, e, ByteClass::Solid);
    if c.end < e {
        lemma_run_end(s, c.end + 1, e, ByteClass::Solid);
    }
}

/// Appending a slice appends its model.
pub proof fn lemma_slices_view_push(items: Seq<&[u8]>, item: &[u8])
    ensures
        slices_view(items.push(item)) == slices_view(items).push(item@),
{
    assert(slices_view(items.push(item)) =~= slices_view(items).push(item@));
}

/// Scans the `[id]` part at `n`.
fn scan_id<'a>(input: &'a [u8], n: usize, e: usize, errors: &mut Vec<Event<'a>>) -> (r: (
    Option<Value<'a>>,
    usize,
    bool,
))
    requires
        n <= e <= input@.len(),
    ensures
        option_view(r.0) == id_at(input@, n as int, e as int).id,
        r.1 == id_at(input@, n as int, e as int).end,
        r.2 == id_at(input@, n as int, e as int).broken,
        n <= r.1 <= e,
        events_view(final(errors)@) == events_view(old(errors)@) + id_at(
            input@,
            n as int,
            e as int,
        ).errors,
{
    let ghost s = input@;
    let ghost before = events_view(errors@);
    assert(before + Seq::<EventView>::empty() =~= before);
    if n < e && input[n] == LBRACKET {
        let (id, end) = scan_value(input, n + 1, e, true, errors);
        let ghost v = value_at(s, n + 1, e as int, true);
        if end < e && input[end] == RBRACKET {
            if id.is_none() {
                push_error(errors, ErrorKind::UnexpectedCharacter, end, end + 1);
                assert((before + v.errors).push(
                    error_event(ErrorKind::UnexpectedCharacter, end as int, end + 1),
                ) =~= before + v.errors.push(
                    error_event(ErrorKind::UnexpectedCharacter, end as int, end + 1),
                ));
            }
            (id, end + 1, false)
        } else {
            push_error(errors, ErrorKind::MissingBracket, end, end);
            assert((before + v.errors).push(
                error_event(ErrorKind::MissingBracket, end as int, end as int),
            ) =~= before + v.errors.push(
                error_event(ErrorKind::MissingBracket, end as int, end as int),
            ));
            let resume = scan_run(input, end, e, ByteClass::Solid);
            (id, resume, true)
        }
    } else {
        (None, n, false)
    }
}

/// Scans the `.class` parts at `start`.
fn scan_classes<'a>(input: &'a [u8], start: usize, e: usize) -> (r: (Vec<&'a [u8]>, usize, bool))
    requires
        start <= e <= input@.len(),
    ensures
        slices_view(r.0@) == classes_at(input@, start as int, e as int).classes,
        r.1 == classes_at(input@, start as int, e as int).end,
        r.2 == classes_at(input@, start as int, e as int).bad,
        start <= r.1 <= e,
{
    let ghost s = input@;
    let ghost whole = classes_at(s, start as int, e as int);
    let mut classes: Vec<&'a [u8]> = Vec::new();
    let mut q: usize = start;
    let mut bad: bool = false;
    assert(slices_view(classes@) + whole.classes =~= whole.classes);
    loop
        invariant_except_break
            start <= q <= e <= input@.len(),
            s == input@,
            slices_view(classes@) + classes_at(s, q as int, e as int).classes == whole.classes,
            classes_at(s, q as int, e as int).end == whole.end,
            classes_at(s, q as int, e as int).bad == whole.bad,
            !bad,
        ensures
            slices_view(classes@) == whole.classes,
            q == whole.end,
            bad == whole.bad,
            start <= q <= e,
        decreases e - q,
    {
        assert(slices_view(classes@) + Seq::<Seq<u8>>::empty() =~= slices_view(classes@));
        if q >= e || input[q] != DOT {
            break ;
        }
        if e - q > 1 && byte_is_ident_start(input[q + 1]) {
            let c = scan_run(input, q + 1, e, ByteClass::Ident);
            let class = slice_subrange(input, q + 1, c);
            proof {
                let rest = classes_at(s, c as int, e as int);
                lemma_run_end(s, q + 1, e as int, ByteClass::Ident);
                lemma_slices_view_push(classes@, class);
                assert(slices_view(classes@).push(class@) + rest.classes =~= slices_view(classes@)
                    + (seq![class@] + rest.classes));
            }
            classes.push(class);
            q = c;
        } else {
            q = q + 1;
            bad = true;
            break ;
        }
    }
    (classes, q, bad)
}

/// Reads the suffix at `q`.
fn scan_suffix(input: &[u8], q: usize, e: usize) -> (r: Option<char>)
    requires
        q <= e <= input@.len(),
    ensures
        r == suffix_at(input@, q as int, e as int),
{
    if q >= e {
        return None;
    }
    let b = input[q];
    if b == QUESTION {
        Some('?')
    } else if b == STAR {
        Some('*')
    } else if b == PLUS {
        Some('+')
    } else if b == BANG && !(e - q > 1 && (input[q + 1] == LBRACE || byte_is_ident_start(
        input[q + 1],
    ))) {
        Some('!')
    } else {
        None
    }
}

fn byte_is_header_stop(b: u8) -> (r: bool)
    ensures
        r == is_header_stop(b),
{
    byte_is_space(b) || b == BAR || b == COLON || b == BANG || b == SEMICOLON
}

/// Parses the header that starts at `p`.
pub fn parse_header<'a>(input: &'a [u8], p: usize, e: usize, errors: &mut Vec<Event<'a>>) -> (h:
    Header<'a>)
    requires
        p <= e <= input@.len(),
    ensures
        option_bytes(h.name) == header_at(input@, p as int, e as int).name,
        option_view(h.id) == header_at(input@, p as int, e as int).id,
        slices_view(h.classes@) == header_at(input@, p as int, e as int).classes,
        h.suffix == header_at(input@, p as int, e as int).suffix,
        h.end == header_at(input@, p as int, e as int).end,
        p <= h.end <= e,
        events_view(final(errors)@) == events_view(old(errors)@) + header_at(
            input@,
            p as int,
            e as int,
        ).errors,
{
    let ghost s = input@;
    let ghost before = events_view(errors@);
    let n = if p < e && byte_is_ident_start(input[p]) {
        scan_run(input, p, e, ByteClass::Ident)
    } else {
        p
    };
    let name = if n > p {
        Some(slice_subrange(input, p, n))
    } else {
        None
    };
    let (id, id_end, broken) = scan_id(input, n, e, errors);
    let ghost i = id_at(s, n as int, e as int);
    if broken {
        let classes: Vec<&'a [u8]> = Vec::new();
        assert(slices_view(classes@) =~= Seq::<Seq<u8>>::empty());
        return Header { name, id, classes, suffix: None, end: id_end };
    }
    let (classes, class_end, bad) = scan_classes(input, id_end, e);
    if bad {
        let mark = if class_end < e {
            class_end + 1
        } else {
            class_end
        };
        push_error(errors, ErrorKind::MalformedHeader, class_end, mark);
        assert((before + i.errors).push(
            error_event(ErrorKind::MalformedHeader, class_end as int, mark as int),
        ) =~= before + i.errors.push(
            error_event(ErrorKind::MalformedHeader, class_end as int, mark as int),
        ));
        let resume = scan_run(input, class_end, e, ByteClass::Solid);
        return Header { name, id, classes, suffix: None, end: resume };
    }
    let suffix = scan_suffix(input, class_end, e);
    let q = if suffix.is_some() {
        class_end + 1
    } else {
        class_end
    };
    if q < e && !byte_is_header_stop(input[q]) {
        let kind = if suffix.is_some() {
            ErrorKind::UnexpectedCharacter
        } else if q == p {
            ErrorKind::MalformedHeader
        } else {
            ErrorKind::UnknownSuffix
        };
        push_error(errors, kind, q, q + 1);
        assert((before + i.errors).push(error_event(kind, q as int, q + 1)) =~= before
            + i.errors.push(error_event(kind, q as int, q + 1)));
        let resume = scan_run(input, q, e, ByteClass::Solid);
        Header { name, id, classes, suffix, end: resume }
    } else {
        Header { name, id, classes, suffix, end: q }
    }
}

} // verus!
