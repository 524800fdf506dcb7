//! Flat records of events for foreign callers, and the pull cursor that
//! hands them out one by one.
//!
//! A record holds what a C structure would: a type tag, slices (absent ones
//! are null), and plain integers. Nothing here touches a pointer; a binding
//! turns each slice into an address and a length.

use vstd::prelude::*;
use vstd::std_specs::convert::FromSpecImpl;
use crate::event::{events_view, Event};
use crate::parser::{document_events, parse_document};
use crate::span::Span;
use crate::value::Value;

verus! {

/// The most classes that an element record holds.
pub const MAX_CLASSES: usize = 16;

/// The type tag of an event record.
#[derive(Debug, Clone, Copy, PartialEq, Eq, Structural)]
pub enum UdonEventType {
    ElementStart,
    ElementEnd,
    Attribute,
    EmbeddedStart,
    EmbeddedEnd,
    DirectiveStart,
    DirectiveEnd,
    InlineDirective,
    Interpolation,
    Text,
    RawContent,
    Comment,
    IdReference,
    AttributeMerge,
    FreeformStart,
    FreeformEnd,
    Error,
}

impl UdonEventType {
    /// The number that stands for this tag on the foreign side: 1 for
    /// `ElementStart` up to 17 for `Error`, in declaration order.
    pub open spec fn number(self) -> int {
        match self {
            UdonEventType::ElementStart => 1,
            UdonEventType::ElementEnd => 2,
            UdonEventType::Attribute => 3,
            UdonEventType::EmbeddedStart => 4,
            UdonEventType::EmbeddedEnd => 5,
            UdonEventType::DirectiveStart => 6,
            UdonEventType::DirectiveEnd => 7,
            UdonEventType::InlineDirective => 8,
            UdonEventType::Interpolation => 9,
            UdonEventType::Text => 10,
            UdonEventType::RawContent => 11,
            UdonEventType::Comment => 12,
            UdonEventType::IdReference => 13,
            UdonEventType::AttributeMerge => 14,
            UdonEventType::FreeformStart => 15,
            UdonEventType::FreeformEnd => 16,
            UdonEventType::Error => 17,
        }
    }

    /// The number that stands for this tag on the foreign side.
    pub fn code(self) -> (c: u32)
        ensures
            c == self.number(),
    {
        match self {
            UdonEventType::ElementStart => 1,
            UdonEventType::ElementEnd => 2,
            UdonEventType::Attribute => 3,
            UdonEventType::EmbeddedStart => 4,
            UdonEventType::EmbeddedEnd => 5,
            UdonEventType::DirectiveStart => 6,
            UdonEventType::DirectiveEnd => 7,
            UdonEventType::InlineDirective => 8,
            UdonEventType::Interpolation => 9,
            UdonEventType::Text => 10,
            UdonEventType::RawContent => 11,
            UdonEventType::Comment => 12,
            UdonEventType::IdReference => 13,
            UdonEventType::AttributeMerge => 14,
            UdonEventType::FreeformStart => 15,
            UdonEventType::FreeformEnd => 16,
            UdonEventType::Error => 17,
        }
    }

    /// The tag of an event.
    pub open spec fn of_event(event: Event) -> UdonEventType {
        match event {
            Event::ElementStart { .. } => UdonEventType::ElementStart,
            Event::ElementEnd { .. } => UdonEventType::ElementEnd,
            Event::Attribute { .. } => UdonEventType::Attribute,
            Event::EmbeddedStart { .. } => UdonEventType::EmbeddedStart,
            Event::EmbeddedEnd { .. } => UdonEventType::EmbeddedEnd,
            Event::DirectiveStart { .. } => UdonEventType::DirectiveStart,
            Event::DirectiveEnd { .. } => UdonEventType::DirectiveEnd,
            Event::InlineDirective { .. } => UdonEventType::InlineDirective,
            Event::Interpolation { .. } => UdonEventType::Interpolation,
            Event::Text { .. } => UdonEventType::Text,
            Event::RawContent { .. } => UdonEventType::RawContent,
            Event::Comment { .. } => UdonEventType::Comment,
            Event::IdReference { .. } => UdonEventType::IdReference,
            Event::AttributeMerge { .. } => UdonEventType::AttributeMerge,
            Event::FreeformStart { .. } => UdonEventType::FreeformStart,
            Event::FreeformEnd { .. } => UdonEventType::FreeformEnd,
            Event::Error { .. } => UdonEventType::Error,
        }
    }
}

/// A byte slice for foreign callers: the bytes, or null.
#[derive(Debug, Clone, Copy)]
pub struct UdonSlice<'a> {
    pub bytes: Option<&'a [u8]>,
}

impl<'a> UdonSlice<'a> {
    /// The slice over `bytes`.
    pub fn from_bytes(bytes: &'a [u8]) -> (slice: Self)
        ensures
            slice.bytes == Some(bytes),
    {
        UdonSlice { bytes: Some(bytes) }
    }

    /// The null slice.
    pub fn null() -> (slice: Self)
        ensures
            slice.bytes is None,
    {
        UdonSlice { bytes: None }
    }

    /// The slice over `bytes`, or the null slice where there are none.
    pub open spec fn of(bytes: Option<&'a [u8]>) -> Self {
        UdonSlice { bytes }
    }

    /// The length that goes with the address: zero for the null slice.
    pub fn len(&self) -> (n: usize)
        ensures
            n == match self.bytes {
                Some(b) => b@.len(),
                None => 0,
            },
    {
        match self.bytes {
            Some(b) => b.len(),
            None => 0,
        }
    }
}

/// A source span for foreign callers.
#[derive(Debug, Clone, Copy, PartialEq, Eq, Structural)]
pub struct UdonSpan {
    pub start: u32,
    pub end: u32,
}

impl From<Span> for UdonSpan {
    fn from(s: Span) -> (r: UdonSpan) {
        UdonSpan { start: s.start, end: s.end }
    }
}

impl FromSpecImpl<Span> for UdonSpan {
    open spec fn obeys_from_spec() -> bool {
        true
    }

    open spec fn from_spec(s: Span) -> UdonSpan {
        UdonSpan { start: s.start, end: s.end }
    }
}

/// The type tag of a value record.
#[derive(Debug, Clone, Copy, PartialEq, Eq, Structural)]
pub enum UdonValueType {
    /// There is no value.
    Absent,
    Nil,
    Bool,
    Integer,
    Float,
    Rational,
    Complex,
    String,
    QuotedString,
    List,
}

impl UdonValueType {
    /// The number that stands for this tag on the foreign side: 0 for
    /// `Absent` up to 9 for `List`, in declaration order.
    pub open spec fn number(self) -> int {
        match self {
            UdonValueType::Absent => 0,
            UdonValueType::Nil => 1,
            UdonValueType::Bool => 2,
            UdonValueType::Integer => 3,
            UdonValueType::Float => 4,
            UdonValueType::Rational => 5,
            UdonValueType::Complex => 6,
            UdonValueType::String => 7,
            UdonValueType::QuotedString => 8,
            UdonValueType::List => 9,
        }
    }

    /// The number that stands for this tag on the foreign side.
    pub fn code(self) -> (c: u32)
        ensures
            c == self.number(),
    {
        match self {
            UdonValueType::Absent => 0,
            UdonValueType::Nil => 1,
            UdonValueType::Bool => 2,
            UdonValueType::Integer => 3,
            UdonValueType::Float => 4,
            UdonValueType::Rational => 5,
            UdonValueType::Complex => 6,
            UdonValueType::String => 7,
            UdonValueType::QuotedString => 8,
            UdonValueType::List => 9,
        }
    }
}

/// Where the floating-point field of a value record comes from. The
/// conversion itself is left to the binding.
#[derive(Debug, Clone, Copy)]
pub enum UdonFloat<'a> {
    /// The field is zero.
    Zero,
    /// The field is the number that this decimal literal spells; an empty
    /// literal is zero.
    Literal(&'a [u8]),
    /// The field is this integer.
    Integer(i64),
}

/// An attribute value for foreign callers.
///
/// Nil, booleans and integers are stored directly, strings as a slice.
/// A rational has its numerator in `int_value` and its denominator in
/// `float_value`; a complex number has its real part in `float_value`. A
/// list is only marked as one: the host parses it again.
#[derive(Debug, Clone, Copy)]
pub struct UdonValue<'a> {
    pub value_type: UdonValueType,
    pub data: UdonSlice<'a>,
    /// For a boolean 0 or 1; for an integer its value; for a rational its
    /// numerator.
    pub int_value: i64,
    pub float_value: UdonFloat<'a>,
}

impl<'a> UdonValue<'a> {
    /// The record of an optional value.
    pub open spec fn of(value: Option<Value<'a>>) -> Self {
        match value {
            None => Self::plain(UdonValueType::Absent, 0),
            Some(Value::Nil) => Self::plain(UdonValueType::Nil, 0),
            Some(Value::Bool(b)) => Self::plain(
                UdonValueType::Bool,
                if b {
                    1
                } else {
                    0
                },
            ),
            Some(Value::Integer(i)) => Self::plain(UdonValueType::Integer, i),
            Some(Value::Float(text)) => UdonValue {
                value_type: UdonValueType::Float,
                data: UdonSlice { bytes: None },
                int_value: 0,
                float_value: UdonFloat::Literal(text),
            },
            Some(Value::Rational { numerator, denominator }) => UdonValue {
                value_type: UdonValueType::Rational,
                data: UdonSlice { bytes: None },
                int_value: numerator,
                float_value: UdonFloat::Integer(denominator),
            },
            Some(Value::Complex { real: re, imag: im }) => UdonValue {
                value_type: UdonValueType::Complex,
                data: UdonSlice { bytes: None },
                int_value: 0,
                float_value: UdonFloat::Literal(re),
            },
            Some(Value::String(s)) => UdonValue {
                value_type: UdonValueType::String,
                data: UdonSlice { bytes: Some(s) },
                int_value: 0,
                float_value: UdonFloat::Zero,
            },
            Some(Value::QuotedString(s)) => UdonValue {
                value_type: UdonValueType::QuotedString,
                data: UdonSlice { bytes: Some(s) },
                int_value: 0,
                float_value: UdonFloat::Zero,
            },
            Some(Value::List(_)) => Self::plain(UdonValueType::List, 0),
        }
    }

    /// A record with no slice and no floating-point part.
    pub open spec fn plain(value_type: UdonValueType, int_value: i64) -> Self {
        UdonValue {
            value_type,
            data: UdonSlice { bytes: None },
            int_value,
            float_value: UdonFloat::Zero,
        }
    }

    /// Builds the record of an optional value.
    pub fn from_value(v: Option<&Value<'a>>) -> (r: Self)
        ensures
            r == Self::of(
                match v {
                    Some(value) => Some(*value),
                    None => None,
                },
            ),
    {
        let null = UdonSlice::null();
        let zero = UdonFloat::Zero;
        match v {
            None => UdonValue {
                value_type: UdonValueType::Absent,
                data: null,
                int_value: 0,
                float_value: zero,
            },
            Some(Value::Nil) => UdonValue {
                value_type: UdonValueType::Nil,
                data: null,
                int_value: 0,
                float_value: zero,
            },
            Some(Value::Bool(b)) => UdonValue {
                value_type: UdonValueType::Bool,
                data: null,
                int_value: if *b {
                    1
                } else {
                    0
                },
                float_value: zero,
            },
            Some(Value::Integer(i)) => UdonValue {
                value_type: UdonValueType::Integer,
                data: null,
                int_value: *i,
                float_value: zero,
            },
            Some(Value::Float(text)) => UdonValue {
                value_type: UdonValueType::Float,
                data: null,
                int_value: 0,
                float_value: UdonFloat::Literal(*text),
            },
            Some(Value::Rational { numerator, denominator }) => UdonValue {
                value_type: UdonValueType::Rational,
                data: null,
                int_value: *numerator,
                float_value: UdonFloat::Integer(*denominator),
            },
            Some(Value::Complex { real: re, imag: _ }) => UdonValue {
                value_type: UdonValueType::Complex,
                data: null,
                int_value: 0,
                float_value: UdonFloat::Literal(*re),
            },
            Some(Value::String(s)) => UdonValue {
                value_type: UdonValueType::String,
                data: UdonSlice::from_bytes(*s),
                int_value: 0,
                float_value: zero,
            },
            Some(Value::QuotedString(s)) => UdonValue {
                value_type: UdonValueType::QuotedString,
                data: UdonSlice::from_bytes(*s),
                int_value: 0,
                float_value: zero,
            },
            Some(Value::List(_)) => UdonValue {
                value_type: UdonValueType::List,
                data: null,
                int_value: 0,
                float_value: zero,
            },
        }
    }
}

/// Element start data: at most [`MAX_CLASSES`] classes are kept.
#[derive(Debug, Clone)]
pub struct UdonElementStart<'a> {
    pub name: UdonSlice<'a>,
    pub id: UdonValue<'a>,
    /// The first classes, in source order; `num_classes` of them.
    pub classes: Vec<UdonSlice<'a>>,
    pub num_classes: u8,
    /// 0 if there is none, otherwise the suffix as a byte.
    pub suffix: u8,
    pub span: UdonSpan,
}

/// Attribute data.
#[derive(Debug, Clone, Copy)]
pub struct UdonAttribute<'a> {
    pub key: UdonSlice<'a>,
    pub value: UdonValue<'a>,
    pub span: UdonSpan,
}

/// Directive data.
#[derive(Debug, Clone, Copy)]
pub struct UdonDirective<'a> {
    pub name: UdonSlice<'a>,
    pub namespace: UdonSlice<'a>,
    pub is_raw: bool,
    pub span: UdonSpan,
}

/// Inline directive data.
#[derive(Debug, Clone, Copy)]
pub struct UdonInlineDirective<'a> {
    pub name: UdonSlice<'a>,
    pub namespace: UdonSlice<'a>,
    pub is_raw: bool,
    pub content: UdonSlice<'a>,
    pub span: UdonSpan,
}

/// Text or content data.
#[derive(Debug, Clone, Copy)]
pub struct UdonContent<'a> {
    pub content: UdonSlice<'a>,
    pub span: UdonSpan,
}

/// Error data.
#[derive(Debug, Clone, Copy)]
pub struct UdonError {
    pub message: &'static str,
    pub span: UdonSpan,
}

/// The data of an event record; which one is there depends on the type tag.
#[derive(Debug, Clone)]
pub enum UdonEventData<'a> {
    ElementStart(UdonElementStart<'a>),
    Attribute(UdonAttribute<'a>),
    Directive(UdonDirective<'a>),
    InlineDirective(UdonInlineDirective<'a>),
    Content(UdonContent<'a>),
    Error(UdonError),
    /// For events that carry nothing but their span.
    Span(UdonSpan),
}

/// An event record.
#[derive(Debug, Clone)]
pub struct UdonEvent<'a> {
    pub event_type: UdonEventType,
    pub data: UdonEventData<'a>,
}

/// The record of a span.
pub open spec fn span_record(span: Span) -> UdonSpan {
    UdonSpan { start: span.start, end: span.end }
}

/// The byte that stands for a suffix: 0 if there is none.
pub open spec fn suffix_byte(suffix: Option<char>) -> u8 {
    match suffix {
        Some(c) => c as u8,
        None => 0,
    }
}

/// How many classes a record keeps of `n`.
pub open spec fn kept_classes(n: int) -> int {
    if n <= MAX_CLASSES {
        n
    } else {
        MAX_CLASSES as int
    }
}

/// `record` is the element start data of an element with these parts: the
/// first [`MAX_CLASSES`] classes are kept, in order, and counted.
pub open spec fn records_element<'a>(
    record: UdonElementStart<'a>,
    name: Option<&'a [u8]>,
    id: Option<Value<'a>>,
    classes: Seq<&'a [u8]>,
    suffix: Option<char>,
    span: Span,
) -> bool {
    &&& record.name == UdonSlice::of(name)
    &&& record.id == UdonValue::of(id)
    &&& record.num_classes == kept_classes(classes.len() as int)
    &&& record.classes@.len() == kept_classes(classes.len() as int)
    &&& forall|k: int|
        0 <= k < record.classes@.len() ==> (#[trigger] record.classes@[k]).bytes == Some(classes[k])
    &&& record.suffix == suffix_byte(suffix)
    &&& record.span == span_record(span)
}

/// `record` is the record of `event`: it has the event's type tag, and its
/// data holds the event's payload, absent parts as null slices.
pub open spec fn records<'a>(record: UdonEvent<'a>, event: Event<'a>) -> bool {
    &&& record.event_type == UdonEventType::of_event(event)
    &&& match event {
        Event::ElementStart { name, id, classes, suffix, span } => {
            record.data matches UdonEventData::ElementStart(d) && records_element(
                d,
                name,
                id,
                classes@,
                suffix,
                span,
            )
        },
        Event::EmbeddedStart { name, id, classes, span } => {
            record.data matches UdonEventData::ElementStart(d) && records_element(
                d,
                name,
                id,
                classes@,
                None,
                span,
            )
        },
        Event::Attribute { key, value, span } => {
            record.data matches UdonEventData::Attribute(d) && d.key.bytes == Some(key) && d.value
                == UdonValue::of(value) && d.span == span_record(span)
        },
        Event::DirectiveStart { name, namespace, is_raw, span } => {
            record.data matches UdonEventData::Directive(d) && d.name.bytes == Some(name)
                && d.namespace == UdonSlice::of(namespace) && d.is_raw == is_raw && d.span
                == span_record(span)
        },
        Event::InlineDirective { name, namespace, is_raw, content, span } => {
            record.data matches UdonEventData::InlineDirective(d) && d.name.bytes == Some(name)
                && d.namespace == UdonSlice::of(namespace) && d.is_raw == is_raw
                && d.content.bytes == Some(content) && d.span == span_record(span)
        },
        Event::Interpolation { expression, span } => records_content(record.data, expression, span),
        Event::Text { content, span } => records_content(record.data, content, span),
        Event::RawContent { content, span } => records_content(record.data, content, span),
        Event::Comment { content, span } => records_content(record.data, content, span),
        Event::IdReference { id, span } => records_content(record.data, id, span),
        Event::AttributeMerge { id, span } => records_content(record.data, id, span),
        Event::Error { message, span } => {
            record.data matches UdonEventData::Error(d) && d.message == message && d.span
                == span_record(span)
        },
        Event::ElementEnd { span } => record.data == UdonEventData::Span(span_record(span)),
        Event::EmbeddedEnd { span } => record.data == UdonEventData::Span(span_record(span)),
        Event::DirectiveEnd { span } => record.data == UdonEventData::Span(span_record(span)),
        Event::FreeformStart { span } => record.data == UdonEventData::Span(span_record(span)),
        Event::FreeformEnd { span } => record.data == UdonEventData::Span(span_record(span)),
    }
}

/// `data` is content data over `content`.
pub open spec fn records_content<'a>(data: UdonEventData<'a>, content: &'a [u8], span: Span) -> bool {
    data matches UdonEventData::Content(d) && d.content.bytes == Some(content) && d.span
        == span_record(span)
}

fn slice_or_null<'a>(bytes: Option<&'a [u8]>) -> (slice: UdonSlice<'a>)
    ensures
        slice == UdonSlice::of(bytes),
{
    match bytes {
        Some(b) => UdonSlice::from_bytes(b),
        None => UdonSlice::null(),
    }
}

fn content_data<'a>(content: &'a [u8], span: Span) -> (data: UdonEventData<'a>)
    ensures
        records_content(data, content, span),
{
    UdonEventData::Content(
        UdonContent { content: UdonSlice::from_bytes(content), span: UdonSpan::from(span) },
    )
}

fn span_data<'a>(span: Span) -> (data: UdonEventData<'a>)
    ensures
        data == UdonEventData::Span(span_record(span)),
{
    UdonEventData::Span(UdonSpan::from(span))
}

fn suffix_code(suffix: Option<char>) -> (b: u8)
    ensures
        b == suffix_byte(suffix),
{
    match suffix {
        Some(c) => #[verifier::truncate]
        (c as u8),
        None => 0,
    }
}

fn element_data<'a>(
    name: Option<&'a [u8]>,
    id: Option<&Value<'a>>,
    classes: &Vec<&'a [u8]>,
    suffix: Option<char>,
    span: Span,
) -> (record: UdonElementStart<'a>)
    ensures
        records_element(
            record,
            name,
            match id {
                Some(value) => Some(*value),
                None => None,
            },
            classes@,
            suffix,
            span,
        ),
{
    let count = if classes.len() <= MAX_CLASSES {
        classes.len()
    } else {
        MAX_CLASSES
    };
    let mut kept: Vec<UdonSlice<'a>> = Vec::new();
    let mut k: usize = 0;
    while k < count
        invariant
            k <= count <= classes@.len(),
            count <= MAX_CLASSES,
            kept@.len() == k,
            forall|j: int| 0 <= j < k ==> (#[trigger] kept@[j]).bytes == Some(classes@[j]),
        decreases count - k,
    {
        kept.push(UdonSlice::from_bytes(classes[k]));
        k = k + 1;
    }
    UdonElementStart {
        name: slice_or_null(name),
        id: UdonValue::from_value(id),
        classes: kept,
        num_classes: count as u8,
        suffix: suffix_code(suffix),
        span: UdonSpan::from(span),
    }
}

/// Builds the record of an event.
pub fn convert_event<'a>(event: &Event<'a>) -> (record: UdonEvent<'a>)
    ensures
        records(record, *event),
{
    match event {
        Event::ElementStart { name, id, classes, suffix, span } => UdonEvent {
            event_type: UdonEventType::ElementStart,
            data: UdonEventData::ElementStart(
                element_data(*name, id.as_ref(), classes, *suffix, *span),
            ),
        },
        Event::ElementEnd { span } => UdonEvent {
            event_type: UdonEventType::ElementEnd,
            data: span_data(*span),
        },
        Event::Attribute { key, value, span } => UdonEvent {
            event_type: UdonEventType::Attribute,
            data: UdonEventData::Attribute(
                UdonAttribute {
                    key: UdonSlice::from_bytes(*key),
                    value: UdonValue::from_value(value.as_ref()),
                    span: UdonSpan::from(*span),
                },
            ),
        },
        Event::EmbeddedStart { name, id, classes, span } => UdonEvent {
            event_type: UdonEventType::EmbeddedStart,
            data: UdonEventData::ElementStart(element_data(*name, id.as_ref(), classes, None, *span)),
        },
        Event::EmbeddedEnd { span } => UdonEvent {
            event_type: UdonEventType::EmbeddedEnd,
            data: span_data(*span),
        },
        Event::DirectiveStart { name, namespace, is_raw, span } => UdonEvent {
            event_type: UdonEventType::DirectiveStart,
            data: UdonEventData::Directive(
                UdonDirective {
                    name: UdonSlice::from_bytes(*name),
                    namespace: slice_or_null(*namespace),
                    is_raw: *is_raw,
                    span: UdonSpan::from(*span),
                },
            ),
        },
        Event::DirectiveEnd { span } => UdonEvent {
            event_type: UdonEventType::DirectiveEnd,
            data: span_data(*span),
        },
        Event::InlineDirective { name, namespace, is_raw, content, span } => UdonEvent {
            event_type: UdonEventType::InlineDirective,
            data: UdonEventData::InlineDirective(
                UdonInlineDirective {
                    name: UdonSlice::from_bytes(*name),
                    namespace: slice_or_null(*namespace),
                    is_raw: *is_raw,
                    content: UdonSlice::from_bytes(*content),
                    span: UdonSpan::from(*span),
                },
            ),
        },
        Event::Interpolation { expression, span } => UdonEvent {
            event_type: UdonEventType::Interpolation,
            data: content_data(*expression, *span),
        },
        Event::Text { content, span } => UdonEvent {
            event_type: UdonEventType::Text,
            data: content_data(*content, *span),
        },
        Event::RawContent { content, span } => UdonEvent {
            event_type: UdonEventType::RawContent,
            data: content_data(*content, *span),
        },
        Event::Comment { content, span } => UdonEvent {
            event_type: UdonEventType::Comment,
            data: content_data(*content, *span),
        },
        Event::IdReference { id, span } => UdonEvent {
            event_type: UdonEventType::IdReference,
            data: content_data(*id, *span),
        },
        Event::AttributeMerge { id, span } => UdonEvent {
            event_type: UdonEventType::AttributeMerge,
            data: content_data(*id, *span),
        },
        Event::FreeformStart { span } => UdonEvent {
            event_type: UdonEventType::FreeformStart,
            data: span_data(*span),
        },
        Event::FreeformEnd { span } => UdonEvent {
            event_type: UdonEventType::FreeformEnd,
            data: span_data(*span),
        },
        Event::Error { message, span } => UdonEvent {
            event_type: UdonEventType::Error,
            data: UdonEventData::Error(UdonError { message: *message, span: UdonSpan::from(*span) }),
        },
    }
}

/// A parsed buffer and a position in its events. Events are converted to
/// records on demand, one at a time.
pub struct UdonParser<'a> {
    events: Vec<Event<'a>>,
    pos: usize,
}

impl<'a> UdonParser<'a> {
    /// The events of the buffer, all of them.
    pub closed spec fn events(&self) -> Seq<Event<'a>> {
        self.events@
    }

    /// How many events have been handed out since the start or the last
    /// reset.
    pub closed spec fn position(&self) -> int {
        self.pos as int
    }

    /// The position is inside the events or just past them.
    #[verifier::type_invariant]
    spec fn well_formed(&self) -> bool {
        self.pos <= self.events@.len()
    }

    /// Parses `input` and stands before its first event.
    pub fn new(input: &'a [u8]) -> (parser: Self)
        ensures
            events_view(parser.events()) == document_events(input@),
            parser.position() == 0,
    {
        UdonParser { events: parse_document(input), pos: 0 }
    }

    /// The record of the next event, or `None` after the last one. The
    /// records that come out one by one are those of the eager parse, in
    /// order.
    pub fn next(&mut self) -> (record: Option<UdonEvent<'a>>)
        ensures
            final(self).events() == old(self).events(),
            0 <= old(self).position() <= old(self).events().len(),
            match record {
                Some(r) => old(self).position() < old(self).events().len() && records(
                    r,
                    old(self).events()[old(self).position()],
                ) && final(self).position() == old(self).position() + 1,
                None => old(self).position() == old(self).events().len() && final(self).position()
                    == old(self).position(),
            },
    {
        proof {
            use_type_invariant(&*self);
        }
        if self.pos >= self.events.len() {
            return None;
        }
        let record = convert_event(&self.events[self.pos]);
        self.pos = self.pos + 1;
        Some(record)
    }

    /// Goes back before the first event.
    pub fn reset(&mut self)
        ensures
            final(self).events() == old(self).events(),
            final(self).position() == 0,
    {
        self.pos = 0;
    }

    /// The number of events.
    pub fn event_count(&self) -> (n: usize)
        ensures
            n == self.events().len(),
    {
        self.events.len()
    }
}

} // verus!
