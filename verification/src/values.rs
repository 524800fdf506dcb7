//! The value scanner: classifies one attribute value by its leading bytes
//! and consumes exactly the bytes that belong to it.

use vstd::prelude::*;
use vstd::slice::slice_subrange;
use crate::event::{error_event, events_view, push_error, ErrorKind, Event, EventView};
use crate::lex::{
    byte_is_digit, find_quote_close, lemma_quote_close, lemma_run_end, lemma_token_end,
    quote_close, run_end, scan_run, scan_token, token_end, ByteClass, DIGIT_0, DOT, LBRACKET,
    LOWER_A, LOWER_E, LOWER_F, LOWER_I, LOWER_L, LOWER_N, LOWER_R, LOWER_S, LOWER_T, LOWER_U,
    QUOTE, RBRACKET, SLASH, TILDE, UPPER_E,
};
use crate::number::{
    after_sign, byte_radix, check_float, complex_split, contains_byte, digit_run, float_ok,
    has_byte, has_radix_prefix, integer_of, is_digit_run, parse_integer, radix_of, rational_split,
    skip_sign, split_complex, split_rational, starts_number,
};
use crate::value::{lemma_list_view, option_view, values_view, Value, ValueView};

verus! {

/// What scanning one value yields: the value (none where no value starts),
/// the offset just past it, and the diagnostics met on the way.
pub struct ValueScan {
    pub value: Option<ValueView>,
    pub end: int,
    pub errors: Seq<EventView>,
}

/// What scanning the items of a list yields.
pub struct ListScan {
    pub items: Seq<ValueView>,
    pub end: int,
    pub errors: Seq<EventView>,
    /// Whether the closing `]` was found.
    pub closed: bool,
}

/// The token `[i, t)` is `~`, `nil` or `null`.
pub open spec fn is_nil_word(s: Seq<u8>, i: int, t: int) -> bool {
    ||| t - i == 1 && s[i] == TILDE
    ||| t - i == 3 && s[i] == LOWER_N && s[i + 1] == LOWER_I && s[i + 2] == LOWER_L
    ||| {
        &&& t - i == 4
        &&& s[i] == LOWER_N
        &&& s[i + 1] == LOWER_U
        &&& s[i + 2] == LOWER_L
        &&& s[i + 3] == LOWER_L
    }
}

/// The token `[i, t)` is `true`.
pub open spec fn is_true_word(s: Seq<u8>, i: int, t: int) -> bool {
    &&& t - i == 4
    &&& s[i] == LOWER_T
    &&& s[i + 1] == LOWER_R
    &&& s[i + 2] == LOWER_U
    &&& s[i + 3] == LOWER_E
}

/// The token `[i, t)` is `false`.
pub open spec fn is_false_word(s: Seq<u8>, i: int, t: int) -> bool {
    &&& t - i == 5
    &&& s[i] == LOWER_F
    &&& s[i + 1] == LOWER_A
    &&& s[i + 2] == LOWER_L
    &&& s[i + 3] == LOWER_S
    &&& s[i + 4] == LOWER_E
}

/// A scan that yields `value` and no diagnostic.
pub open spec fn clean(value: ValueView, end: int) -> ValueScan {
    ValueScan { value: Some(value), end, errors: Seq::empty() }
}

/// A scan that falls back to the bare string `[i, t)` with one diagnostic.
pub open spec fn fallback(s: Seq<u8>, i: int, t: int, kind: ErrorKind) -> ValueScan {
    ValueScan {
        value: Some(ValueView::String(s.subrange(i, t))),
        end: t,
        errors: seq![error_event(kind, i, t)],
    }
}

/// The value of the bare token `[i, t)`.
///
/// Keywords come first. A token that starts like a number and holds only
/// numeric bytes is classified by its syntax: radix prefix, rational,
/// complex, float, decimal integer. A literal outside the signed 64-bit
/// range and a malformed float or complex literal fall back to a bare string
/// with a diagnostic; everything else is a bare string.
pub open spec fn bare_value(s: Seq<u8>, i: int, t: int) -> ValueScan {
    let text = clean(ValueView::String(s.subrange(i, t)), t);
    let a = after_sign(s, i, t);
    if is_nil_word(s, i, t) {
        clean(ValueView::Nil, t)
    } else if is_true_word(s, i, t) {
        clean(ValueView::Bool(true), t)
    } else if is_false_word(s, i, t) {
        clean(ValueView::Bool(false), t)
    } else if !starts_number(s, i, t) || run_end(s, i, t, ByteClass::Numeric) < t {
        text
    } else if has_radix_prefix(s, i, t) {
        if digit_run(s, i + 2, t, radix_of(s[i + 1])) {
            match integer_of(s, i + 2, t, radix_of(s[i + 1]), false) {
                Some(v) => clean(ValueView::Integer(v), t),
                None => fallback(s, i, t, ErrorKind::IntegerOverflow),
            }
        } else {
            text
        }
    } else if has_byte(s, i, t, SLASH) && s[t - 1] == LOWER_R {
        let m = rational_split(s, i, t);
        if m < 0 {
            text
        } else {
            match (integer_of(s, a, m, 10, a > i), integer_of(s, m + 1, t - 1, 10, false)) {
                (Some(n), Some(d)) => clean(ValueView::Rational { numerator: n, denominator: d }, t),
                _ => fallback(s, i, t, ErrorKind::IntegerOverflow),
            }
        }
    } else if s[t - 1] == LOWER_I {
        let d = complex_split(s, i, t);
        if d < 0 {
            fallback(s, i, t, ErrorKind::InvalidFloat)
        } else {
            clean(ValueView::Complex { real: s.subrange(i, d), imag: s.subrange(d, t - 1) }, t)
        }
    } else if has_byte(s, i, t, DOT) || has_byte(s, i, t, LOWER_E) || has_byte(s, i, t, UPPER_E) {
        if float_ok(s, i, t) {
            clean(ValueView::Float(s.subrange(i, t)), t)
        } else {
            fallback(s, i, t, ErrorKind::InvalidFloat)
        }
    } else if digit_run(s, a, t, 10) {
        match integer_of(s, a, t, 10, a > i) {
            Some(v) => clean(ValueView::Integer(v), t),
            None => fallback(s, i, t, ErrorKind::IntegerOverflow),
        }
    } else {
        text
    }
}

/// The value that starts at `i` in the window that ends at `e`.
///
/// `"` opens a quoted string and `[` a list; any other byte starts a bare
/// token, which runs to the next whitespace that no backslash protects, `;`
/// or `|` (and, when `bracketed`, to the next `]`). Where no value starts, the scan is empty
/// and ends at `i`. A string without its closing quote falls back to a bare
/// string that runs to the window's end; a list without its `]` keeps the
/// items found, with a diagnostic at the offset where it stopped.
pub open spec fn value_at(s: Seq<u8>, i: int, e: int, bracketed: bool) -> ValueScan
    decreases e - i, 0nat,
{
    if !(0 <= i < e <= s.len()) {
        ValueScan { value: None, end: i, errors: Seq::empty() }
    } else if s[i] == QUOTE {
        let c = quote_close(s, i + 1, e);
        if c < e {
            clean(ValueView::QuotedString(s.subrange(i + 1, c)), c + 1)
        } else {
            fallback(s, i, e, ErrorKind::UnterminatedInline)
        }
    } else if s[i] == LBRACKET {
        let l = list_at(s, i + 1, e);
        ValueScan {
            value: Some(ValueView::List(l.items)),
            end: l.end,
            errors: if l.closed {
                l.errors
            } else {
                l.errors.push(error_event(ErrorKind::UnterminatedInline, l.end, l.end))
            },
        }
    } else {
        let t = token_end(s, i, e, bracketed);
        if t <= i {
            ValueScan { value: None, end: i, errors: Seq::empty() }
        } else {
            bare_value(s, i, t)
        }
    }
}

/// The items of a list whose interior starts at `j`: values separated by
/// whitespace, up to the closing `]`. The list is left open at the window's
/// end and before a `;` or `|`.
pub open spec fn list_at(s: Seq<u8>, j: int, e: int) -> ListScan
    decreases e - j, 1nat,
{
    let k = run_end(s, j, e, ByteClass::Blank);
    if !(0 <= j <= e <= s.len()) {
        ListScan { items: Seq::empty(), end: j, errors: Seq::empty(), closed: false }
    } else if k >= e {
        ListScan { items: Seq::empty(), end: k, errors: Seq::empty(), closed: false }
    } else if s[k] == RBRACKET {
        ListScan { items: Seq::empty(), end: k + 1, errors: Seq::empty(), closed: true }
    } else {
        proof {
            lemma_run_end(s, j, e, ByteClass::Blank);
        }
        let v = value_at(s, k, e, true);
        if k < v.end <= e && v.value is Some {
            let rest = list_at(s, v.end, e);
            ListScan {
                items: seq![v.value->Some_0] + rest.items,
                end: rest.end,
                errors: v.errors + rest.errors,
                closed: rest.closed,
            }
        } else {
            ListScan { items: Seq::empty(), end: k, errors: Seq::empty(), closed: false }
        }
    }
}

/// A scan ends inside its window, and a scan that yields a value consumes
/// at least one byte.
pub proof fn lemma_value_at_bounds(s: Seq<u8>, i: int, e: int, bracketed: bool)
    requires
        0 <= i <= e <= s.len(),
    ensures
        i <= value_at(s, i, e, bracketed).end <= e,
        value_at(s, i, e, bracketed).value is Some <==> value_at(s, i, e, bracketed).end > i,
    decreases e - i, 0nat,
{
    if i < e {
        if s[i] == QUOTE {
            lemma_quote_close(s, i + 1, e);
        } else if s[i] == LBRACKET {
            lemma_list_at_bounds(s, i + 1, e);
        } else {
            lemma_token_end(s, i, e, bracketed);
        }
    }
}

/// A list scan ends inside its window.
pub proof fn lemma_list_at_bounds(s: Seq<u8>, j: int, e: int)
    requires
        0 <= j <= e <= s.len(),
    ensures
        j <= list_at(s, j, e).end <= e,
    decreases e - j, 1nat,
{
    let k = run_end(s, j, e, ByteClass::Blank);
    lemma_run_end(s, j, e, ByteClass::Blank);
    if k < e && s[k] != RBRACKET {
        let v = value_at(s, k, e, true);
        if k < v.end <= e && v.value is Some {
            lemma_list_at_bounds(s, v.end, e);
        }
    }
}

fn word_is_nil(input: &[u8], i: usize, t: usize) -> (r: bool)
    requires
        i < t <= input@.len(),
    ensures
        r == is_nil_word(input@, i as int, t as int),
{
    let n = t - i;
    if n == 1 {
        input[i] == TILDE
    } else if n == 3 {
        input[i] == LOWER_N && input[i + 1] == LOWER_I && input[i + 2] == LOWER_L
    } else if n == 4 {
        input[i] == LOWER_N && input[i + 1] == LOWER_U && input[i + 2] == LOWER_L
            && input[i + 3] == LOWER_L
    } else {
        false
    }
}

fn word_is_true(input: &[u8], i: usize, t: usize) -> (r: bool)
    requires
        i < t <= input@.len(),
    ensures
        r == is_true_word(input@, i as int, t as int),
{
    t - i == 4 && input[i] == LOWER_T && input[i + 1] == LOWER_R && input[i + 2] == LOWER_U
        && input[i + 3] == LOWER_E
}

fn word_is_false(input: &[u8], i: usize, t: usize) -> (r: bool)
    requires
        i < t <= input@.len(),
    ensures
        r == is_false_word(input@, i as int, t as int),
{
    t - i == 5 && input[i] == LOWER_F && input[i + 1] == LOWER_A && input[i + 2] == LOWER_L
        && input[i + 3] == LOWER_S && input[i + 4] == LOWER_E
}

fn token_starts_number(input: &[u8], i: usize, t: usize) -> (r: bool)
    requires
        i < t <= input@.len(),
    ensures
        r == starts_number(input@, i as int, t as int),
{
    let a = skip_sign(input, i, t);
    a < t && byte_is_digit(input[a])
}

/// Classifies the bare token `[i, t)`.
pub fn scan_bare<'a>(input: &'a [u8], i: usize, t: usize, errors: &mut Vec<Event<'a>>) -> (value:
    Value<'a>)
    requires
        i < t <= input@.len(),
    ensures
        Some(value@) == bare_value(input@, i as int, t as int).value,
        events_view(final(errors)@) == events_view(old(errors)@) + bare_value(
            input@,
            i as int,
            t as int,
        ).errors,
{
    let ghost s = input@;
    let ghost before = events_view(errors@);
    assert(before + Seq::<EventView>::empty() =~= before);
    assert(before + seq![error_event(ErrorKind::IntegerOverflow, i as int, t as int)]
        =~= before.push(error_event(ErrorKind::IntegerOverflow, i as int, t as int)));
    assert(before + seq![error_event(ErrorKind::InvalidFloat, i as int, t as int)] =~= before.push(
        error_event(ErrorKind::InvalidFloat, i as int, t as int),
    ));
    let text = Value::String(slice_subrange(input, i, t));
    if word_is_nil(input, i, t) {
        return Value::Nil;
    }
    if word_is_true(input, i, t) {
        return Value::Bool(true);
    }
    if word_is_false(input, i, t) {
        return Value::Bool(false);
    }
    if !token_starts_number(input, i, t) || scan_run(input, i, t, ByteClass::Numeric) < t {
        return text;
    }
    let a = skip_sign(input, i, t);
    let negative = a > i;
    if t - i >= 2 && input[i] == DIGIT_0 && byte_radix(input[i + 1]) != 0 {
        let base = byte_radix(input[i + 1]);
        if is_digit_run(input, i + 2, t, base) {
            match parse_integer(input, i + 2, t, base, false) {
                Some(v) => Value::Integer(v),
                None => {
                    push_error(errors, ErrorKind::IntegerOverflow, i, t);
                    text
                },
            }
        } else {
            text
        }
    } else if contains_byte(input, i, t, SLASH) && input[t - 1] == LOWER_R {
        match split_rational(input, i, t) {
            None => text,
            Some(m) => {
                let numerator = parse_integer(input, a, m, 10, negative);
                let denominator = parse_integer(input, m + 1, t - 1, 10, false);
                match (numerator, denominator) {
                    (Some(n), Some(d)) => Value::Rational { numerator: n, denominator: d },
                    _ => {
                        push_error(errors, ErrorKind::IntegerOverflow, i, t);
                        text
                    },
                }
            },
        }
    } else if input[t - 1] == LOWER_I {
        match split_complex(input, i, t) {
            None => {
                push_error(errors, ErrorKind::InvalidFloat, i, t);
                text
            },
            Some(d) => Value::Complex {
                real: slice_subrange(input, i, d),
                imag: slice_subrange(input, d, t - 1),
            },
        }
    } else if contains_byte(input, i, t, DOT) || contains_byte(input, i, t, LOWER_E)
        || contains_byte(input, i, t, UPPER_E) {
        if check_float(input, i, t) {
            Value::Float(slice_subrange(input, i, t))
        } else {
            push_error(errors, ErrorKind::InvalidFloat, i, t);
            text
        }
    } else if is_digit_run(input, a, t, 10) {
        match parse_integer(input, a, t, 10, negative) {
            Some(v) => Value::Integer(v),
            None => {
                push_error(errors, ErrorKind::IntegerOverflow, i, t);
                text
            },
        }
    } else {
        text
    }
}

/// Appending a value appends its model.
pub proof fn lemma_values_view_push(items: Seq<Value>, value: Value)
    ensures
        values_view(items.push(value)) == values_view(items).push(value@),
{
    assert(values_view(items.push(value)) =~= values_view(items).push(value@));
}

/// Scans the value that starts at `i`.
pub fn scan_value<'a>(
    input: &'a [u8],
    i: usize,
    e: usize,
    bracketed: bool,
    errors: &mut Vec<Event<'a>>,
) -> (r: (Option<Value<'a>>, usize))
    requires
        i <= e <= input@.len(),
    ensures
        option_view(r.0) == value_at(input@, i as int, e as int, bracketed).value,
        r.1 == value_at(input@, i as int, e as int, bracketed).end,
        i <= r.1 <= e,
        events_view(final(errors)@) == events_view(old(errors)@) + value_at(
            input@,
            i as int,
            e as int,
            bracketed,
        ).errors,
    decreases e - i, 0nat,
{
    let ghost s = input@;
    let ghost before = events_view(errors@);
    assert(before + Seq::<EventView>::empty() =~= before);
    if i >= e {
        return (None, i);
    }
    let b = input[i];
    if b == QUOTE {
        let c = find_quote_close(input, i + 1, e);
        if c < e {
            (Some(Value::QuotedString(slice_subrange(input, i + 1, c))), c + 1)
        } else {
            push_error(errors, ErrorKind::UnterminatedInline, i, e);
            assert(before + seq![error_event(ErrorKind::UnterminatedInline, i as int, e as int)]
                =~= before.push(error_event(ErrorKind::UnterminatedInline, i as int, e as int)));
            (Some(Value::String(slice_subrange(input, i, e))), e)
        }
    } else if b == LBRACKET {
        let (items, end, closed) = scan_list(input, i + 1, e, errors);
        let ghost l = list_at(s, i + 1, e as int);
        if !closed {
            push_error(errors, ErrorKind::UnterminatedInline, end, end);
            assert((before + l.errors).push(
                error_event(ErrorKind::UnterminatedInline, end as int, end as int),
            ) =~= before + l.errors.push(
                error_event(ErrorKind::UnterminatedInline, end as int, end as int),
            ));
        }
        proof {
            lemma_list_view(items);
        }
        (Some(Value::List(items)), end)
    } else {
        let t = scan_token(input, i, e, bracketed);
        if t <= i {
            (None, i)
        } else {
            let value = scan_bare(input, i, t, errors);
            (Some(value), t)
        }
    }
}

/// Scans the items of a list whose interior starts at `start`.
pub fn scan_list<'a>(input: &'a [u8], start: usize, e: usize, errors: &mut Vec<Event<'a>>) -> (r: (
    Vec<Value<'a>>,
    usize,
    bool,
))
    requires
        start <= e <= input@.len(),
    ensures
        values_view(r.0@) == list_at(input@, start as int, e as int).items,
        r.1 == list_at(input@, start as int, e as int).end,
        r.2 == list_at(input@, start as int, e as int).closed,
        start <= r.1 <= e,
        events_view(final(errors)@) == events_view(old(errors)@) + list_at(
            input@,
            start as int,
            e as int,
        ).errors,
    decreases e - start, 1nat,
{
    let ghost s = input@;
    let ghost before = events_view(errors@);
    let ghost whole = list_at(s, start as int, e as int);
    let mut items: Vec<Value<'a>> = Vec::new();
    let mut j: usize = start;
    let mut end: usize = start;
    let mut closed: bool = false;
    assert(values_view(items@) + whole.items =~= whole.items);
    loop
        invariant_except_break
            start <= j <= e <= input@.len(),
            s == input@,
            whole == list_at(s, start as int, e as int),
            values_view(items@) + list_at(s, j as int, e as int).items == whole.items,
            list_at(s, j as int, e as int).end == whole.end,
            list_at(s, j as int, e as int).closed == whole.closed,
            events_view(errors@) + list_at(s, j as int, e as int).errors == before + whole.errors,
        ensures
            values_view(items@) == whole.items,
            end == whole.end,
            closed == whole.closed,
            start <= end <= e,
            events_view(errors@) == before + whole.errors,
        decreases e - j,
    {
        let ghost here = list_at(s, j as int, e as int);
        let ghost errs = events_view(errors@);
        assert(values_view(items@) + Seq::<ValueView>::empty() =~= values_view(items@));
        assert(errs + Seq::<EventView>::empty() =~= errs);
        let k = scan_run(input, j, e, ByteClass::Blank);
        if k >= e {
            end = k;
            closed = false;
            break ;
        }
        if input[k] == RBRACKET {
            end = k + 1;
            closed = true;
            break ;
        }
        let (found, next) = scan_value(input, k, e, true, errors);
        let ghost v = value_at(s, k as int, e as int, true);
        proof {
            lemma_value_at_bounds(s, k as int, e as int, true);
        }
        match found {
            Some(value) => {
                if next > k {
                    let ghost rest = list_at(s, next as int, e as int);
                    proof {
                        lemma_values_view_push(items@, value);
                        assert(values_view(items@).push(value@) + rest.items =~= values_view(
                            items@,
                        ) + (seq![value@] + rest.items));
                        assert((errs + v.errors) + rest.errors =~= errs + (v.errors + rest.errors));
                    }
                    items.push(value);
                    j = next;
                } else {
                    end = k;
                    closed = false;
                    break ;
                }
            },
            None => {
                end = k;
                closed = false;
                break ;
            },
        }
    }
    (items, end, closed)
}

} // verus!
