//! Events as records of owned text, ready to be serialised: every byte
//! payload becomes a string, read as UTF-8 with replacement characters for
//! what is not.

use vstd::prelude::*;
use crate::event::{Event, EventView};
use crate::span::Span;
use crate::value::{Value, ValueView};

verus! {

/// The text that a byte sequence stands for when it is read as UTF-8 and
/// every invalid sequence is replaced by U+FFFD.
pub uninterp spec fn lossy_text(bytes: Seq<u8>) -> Seq<char>;

/// The character of a decimal digit.
pub open spec fn digit_char(d: int) -> char {
    (48 + d) as char
}

/// The decimal digits of a natural number, without leading zeros.
pub open spec fn decimal_digits(n: nat) -> Seq<char>
    decreases n,
{
    if n < 10 {
        seq![digit_char(n as int)]
    } else {
        decimal_digits(n / 10).push(digit_char((n % 10) as int))
    }
}

/// An integer in decimal, with `-` before a negative one.
pub open spec fn decimal_text(i: int) -> Seq<char> {
    if i < 0 {
        seq!['-'] + decimal_digits((-i) as nat)
    } else {
        decimal_digits(i as nat)
    }
}

/// A rational as text: numerator, `/`, denominator.
pub open spec fn rational_repr(numerator: int, denominator: int) -> Seq<char> {
    decimal_text(numerator) + seq!['/'] + decimal_text(denominator)
}

/// Reads bytes as UTF-8, replacing what is invalid.
///
/// Calls `String::from_utf8_lossy`. The contract is taken on trust: the
/// result is the lossy reading of the bytes, a function of the bytes alone.
#[verifier::external_body]
fn bytes_to_string(bytes: &[u8]) -> (text: String)
    ensures
        text@ == lossy_text(bytes@),
{
    String::from_utf8_lossy(bytes).into_owned()
}

/// Writes a rational as text.
///
/// Formats two integers with `format!`. The contract is taken on trust:
/// each integer is written in decimal, a negative one with `-` before it,
/// and a `/` stands between them.
#[verifier::external_body]
fn rational_text(numerator: i64, denominator: i64) -> (text: String)
    ensures
        text@ == rational_repr(numerator as int, denominator as int),
{
    format!("{}/{}", numerator, denominator)
}

/// A value, ready to be serialised.
///
/// Strings are owned text. A float keeps the bytes of its literal and a
/// complex number those of its two parts: turning them into numbers is left
/// to the serialiser.
#[derive(Debug)]
pub enum JsonValue<'a> {
    Null,
    Bool(bool),
    Int(i64),
    Float(&'a [u8]),
    String(String),
    Complex { real: &'a [u8], imag: &'a [u8] },
}

/// Mathematical model of a [`JsonValue`].
pub enum JsonValueView {
    Null,
    Bool(bool),
    Int(i64),
    Float(Seq<u8>),
    String(Seq<char>),
    Complex { real: Seq<u8>, imag: Seq<u8> },
}

impl<'a> View for JsonValue<'a> {
    type V = JsonValueView;

    open spec fn view(&self) -> JsonValueView {
        match self {
            JsonValue::Null => JsonValueView::Null,
            JsonValue::Bool(b) => JsonValueView::Bool(*b),
            JsonValue::Int(i) => JsonValueView::Int(*i),
            JsonValue::Float(text) => JsonValueView::Float(text@),
            JsonValue::String(text) => JsonValueView::String(text@),
            JsonValue::Complex { real: re, imag: im } => JsonValueView::Complex {
                real: re@,
                imag: im@,
            },
        }
    }
}

/// The text that stands for every list.
pub open spec fn list_text() -> Seq<char> {
    "[list]"@
}

/// The record of a value: nil is null, booleans and integers are
/// themselves, bare and quoted strings are text, a rational is the text
/// `numerator/denominator`, and a list is the text `[list]`.
pub open spec fn json_value(value: ValueView) -> JsonValueView {
    match value {
        ValueView::Nil => JsonValueView::Null,
        ValueView::Bool(b) => JsonValueView::Bool(b),
        ValueView::Integer(i) => JsonValueView::Int(i),
        ValueView::Float(text) => JsonValueView::Float(text),
        ValueView::String(bytes) => JsonValueView::String(lossy_text(bytes)),
        ValueView::QuotedString(bytes) => JsonValueView::String(lossy_text(bytes)),
        ValueView::Rational { numerator, denominator } => JsonValueView::String(
            rational_repr(numerator as int, denominator as int),
        ),
        ValueView::Complex { real: re, imag: im } => JsonValueView::Complex { real: re, imag: im },
        ValueView::List(_) => JsonValueView::String(list_text()),
    }
}

/// Builds the record of a value.
pub fn value_to_json<'a>(v: &Value<'a>) -> (json: JsonValue<'a>)
    ensures
        json@ == json_value(v@),
{
    match v {
        Value::Nil => JsonValue::Null,
        Value::Bool(b) => JsonValue::Bool(*b),
        Value::Integer(i) => JsonValue::Int(*i),
        Value::Float(text) => JsonValue::Float(*text),
        Value::String(s) => JsonValue::String(bytes_to_string(*s)),
        Value::QuotedString(s) => JsonValue::String(bytes_to_string(*s)),
        Value::Rational { numerator, denominator } => JsonValue::String(
            rational_text(*numerator, *denominator),
        ),
        Value::Complex { real: re, imag: im } => JsonValue::Complex { real: *re, imag: *im },
        Value::List(_) => JsonValue::String("[list]".to_owned()),
    }
}

/// An event, ready to be serialised.
#[allow(inconsistent_fields)]
#[derive(Debug)]
pub enum JsonEvent<'a> {
    ElementStart {
        name: Option<String>,
        id: Option<JsonValue<'a>>,
        classes: Vec<String>,
        suffix: Option<char>,
        span: Span,
    },
    ElementEnd { span: Span },
    Attribute { key: String, value: Option<JsonValue<'a>>, span: Span },
    Text { content: String, span: Span },
    Comment { content: String, span: Span },
    Error { message: String, span: Span },
    EmbeddedStart {
        name: Option<String>,
        id: Option<JsonValue<'a>>,
        classes: Vec<String>,
        span: Span,
    },
    EmbeddedEnd { span: Span },
    DirectiveStart { name: String, namespace: Option<String>, is_raw: bool, span: Span },
    DirectiveEnd { span: Span },
    InlineDirective {
        name: String,
        namespace: Option<String>,
        is_raw: bool,
        content: String,
        span: Span,
    },
    Interpolation { expression: String, span: Span },
    RawContent { content: String, span: Span },
    IdReference { id: String, span: Span },
    AttributeMerge { id: String, span: Span },
    FreeformStart { span: Span },
    FreeformEnd { span: Span },
}

/// Mathematical model of a [`JsonEvent`].
#[allow(inconsistent_fields)]
pub enum JsonEventView {
    ElementStart {
        name: Option<Seq<char>>,
        id: Option<JsonValueView>,
        classes: Seq<Seq<char>>,
        suffix: Option<char>,
        span: Span,
    },
    ElementEnd { span: Span },
    Attribute { key: Seq<char>, value: Option<JsonValueView>, span: Span },
    Text { content: Seq<char>, span: Span },
    Comment { content: Seq<char>, span: Span },
    Error { message: Seq<char>, span: Span },
    EmbeddedStart {
        name: Option<Seq<char>>,
        id: Option<JsonValueView>,
        classes: Seq<Seq<char>>,
        span: Span,
    },
    EmbeddedEnd { span: Span },
    DirectiveStart { name: Seq<char>, namespace: Option<Seq<char>>, is_raw: bool, span: Span },
    DirectiveEnd { span: Span },
    InlineDirective {
        name: Seq<char>,
        namespace: Option<Seq<char>>,
        is_raw: bool,
        content: Seq<char>,
        span: Span,
    },
    Interpolation { expression: Seq<char>, span: Span },
    RawContent { content: Seq<char>, span: Span },
    IdReference { id: Seq<char>, span: Span },
    AttributeMerge { id: Seq<char>, span: Span },
    FreeformStart { span: Span },
    FreeformEnd { span: Span },
}

/// The model of an optional string.
pub open spec fn option_text(text: Option<String>) -> Option<Seq<char>> {
    match text {
        Some(t) => Some(t@),
        None => None,
    }
}

/// The model of an optional value record.
pub open spec fn option_json(value: Option<JsonValue>) -> Option<JsonValueView> {
    match value {
        Some(v) => Some(v@),
        None => None,
    }
}

/// The models of a sequence of strings, item by item.
pub open spec fn texts_view(items: Seq<String>) -> Seq<Seq<char>> {
    Seq::new(items.len(), |k: int| items[k]@)
}

impl<'a> View for JsonEvent<'a> {
    type V = JsonEventView;

    open spec fn view(&self) -> JsonEventView {
        match *self {
            JsonEvent::ElementStart { name, id, classes, suffix, span } => {
                JsonEventView::ElementStart {
                    name: option_text(name),
                    id: option_json(id),
                    classes: texts_view(classes@),
                    suffix,
                    span,
                }
            },
            JsonEvent::ElementEnd { span } => JsonEventView::ElementEnd { span },
            JsonEvent::Attribute { key, value, span } => JsonEventView::Attribute {
                key: key@,
                value: option_json(value),
                span,
            },
            JsonEvent::Text { content, span } => JsonEventView::Text { content: content@, span },
            JsonEvent::Comment { content, span } => JsonEventView::Comment {
                content: content@,
                span,
            },
            JsonEvent::Error { message, span } => JsonEventView::Error { message: message@, span },
            JsonEvent::EmbeddedStart { name, id, classes, span } => JsonEventView::EmbeddedStart {
                name: option_text(name),
                id: option_json(id),
                classes: texts_view(classes@),
                span,
            },
            JsonEvent::EmbeddedEnd { span } => JsonEventView::EmbeddedEnd { span },
            JsonEvent::DirectiveStart { name, namespace, is_raw, span } => {
                JsonEventView::DirectiveStart {
                    name: name@,
                    namespace: option_text(namespace),
                    is_raw,
                    span,
                }
            },
            JsonEvent::DirectiveEnd { span } => JsonEventView::DirectiveEnd { span },
            JsonEvent::InlineDirective { name, namespace, is_raw, content, span } => {
                JsonEventView::InlineDirective {
                    name: name@,
                    namespace: option_text(namespace),
                    is_raw,
                    content: content@,
                    span,
                }
            },
            JsonEvent::Interpolation { expression, span } => JsonEventView::Interpolation {
                expression: expression@,
                span,
            },
            JsonEvent::RawContent { content, span } => JsonEventView::RawContent {
                content: content@,
                span,
            },
            JsonEvent::IdReference { id, span } => JsonEventView::IdReference { id: id@, span },
            JsonEvent::AttributeMerge { id, span } => JsonEventView::AttributeMerge {
                id: id@,
                span,
            },
            JsonEvent::FreeformStart { span } => JsonEventView::FreeformStart { span },
            JsonEvent::FreeformEnd { span } => JsonEventView::FreeformEnd { span },
        }
    }
}

/// The text of optional bytes.
pub open spec fn option_lossy(bytes: Option<Seq<u8>>) -> Option<Seq<char>> {
    match bytes {
        Some(b) => Some(lossy_text(b)),
        None => None,
    }
}

/// The record of an optional value.
pub open spec fn option_json_value(value: Option<ValueView>) -> Option<JsonValueView> {
    match value {
        Some(v) => Some(json_value(v)),
        None => None,
    }
}

/// The texts of a sequence of byte sequences, item by item.
pub open spec fn lossy_texts(items: Seq<Seq<u8>>) -> Seq<Seq<char>> {
    Seq::new(items.len(), |k: int| lossy_text(items[k]))
}

/// The record of an event: the same event, with text in place of bytes
/// and value records in place of values.
pub open spec fn json_event(event: EventView) -> JsonEventView {
    match event {
        EventView::ElementStart { name, id, classes, suffix, span } => JsonEventView::ElementStart {
            name: option_lossy(name),
            id: option_json_value(id),
            classes: lossy_texts(classes),
            suffix,
            span,
        },
        EventView::ElementEnd { span } => JsonEventView::ElementEnd { span },
        EventView::Attribute { key, value, span } => JsonEventView::Attribute {
            key: lossy_text(key),
            value: option_json_value(value),
            span,
        },
        EventView::EmbeddedStart { name, id, classes, span } => JsonEventView::EmbeddedStart {
            name: option_lossy(name),
            id: option_json_value(id),
            classes: lossy_texts(classes),
            span,
        },
        EventView::EmbeddedEnd { span } => JsonEventView::EmbeddedEnd { span },
        EventView::DirectiveStart { name, namespace, is_raw, span } => {
            JsonEventView::DirectiveStart {
                name: lossy_text(name),
                namespace: option_lossy(namespace),
                is_raw,
                span,
            }
        },
        EventView::DirectiveEnd { span } => JsonEventView::DirectiveEnd { span },
        EventView::InlineDirective { name, namespace, is_raw, content, span } => {
            JsonEventView::InlineDirective {
                name: lossy_text(name),
                namespace: option_lossy(namespace),
                is_raw,
                content: lossy_text(content),
                span,
            }
        },
        EventView::Interpolation { expression, span } => JsonEventView::Interpolation {
            expression: lossy_text(expression),
            span,
        },
        EventView::Text { content, span } => JsonEventView::Text {
            content: lossy_text(content),
            span,
        },
        EventView::RawContent { content, span } => JsonEventView::RawContent {
            content: lossy_text(content),
            span,
        },
        EventView::Comment { content, span } => JsonEventView::Comment {
            content: lossy_text(content),
            span,
        },
        EventView::IdReference { id, span } => JsonEventView::IdReference {
            id: lossy_text(id),
            span,
        },
        EventView::AttributeMerge { id, span } => JsonEventView::AttributeMerge {
            id: lossy_text(id),
            span,
        },
        EventView::FreeformStart { span } => JsonEventView::FreeformStart { span },
        EventView::FreeformEnd { span } => JsonEventView::FreeformEnd { span },
        EventView::Error { message, span } => JsonEventView::Error { message, span },
    }
}

fn optional_text(bytes: Option<&[u8]>) -> (text: Option<String>)
    ensures
        option_text(text) == option_lossy(crate::event::option_bytes(bytes)),
{
    match bytes {
        Some(b) => Some(bytes_to_string(b)),
        None => None,
    }
}

fn optional_json<'a>(value: &Option<Value<'a>>) -> (json: Option<JsonValue<'a>>)
    ensures
        option_json(json) == option_json_value(crate::value::option_view(*value)),
{
    match value {
        Some(v) => Some(value_to_json(v)),
        None => None,
    }
}

fn class_texts(classes: &Vec<&[u8]>) -> (texts: Vec<String>)
    ensures
        texts_view(texts@) == lossy_texts(crate::event::slices_view(classes@)),
{
    let mut texts: Vec<String> = Vec::new();
    let mut k: usize = 0;
    while k < classes.len()
        invariant
            k <= classes.len(),
            texts@.len() == k,
            forall|j: int| 0 <= j < k ==> (#[trigger] texts@[j])@ == lossy_text(classes@[j]@),
        decreases classes.len() - k,
    {
        texts.push(bytes_to_string(classes[k]));
        k = k + 1;
    }
    assert(texts_view(texts@) =~= lossy_texts(crate::event::slices_view(classes@)));
    texts
}

/// Builds the record of an event.
pub fn event_to_json<'a>(event: &Event<'a>) -> (json: JsonEvent<'a>)
    ensures
        json@ == json_event(event@),
{
    match event {
        Event::ElementStart { name, id, classes, suffix, span } => JsonEvent::ElementStart {
            name: optional_text(*name),
            id: optional_json(id),
            classes: class_texts(classes),
            suffix: *suffix,
            span: *span,
        },
        Event::ElementEnd { span } => JsonEvent::ElementEnd { span: *span },
        Event::Attribute { key, value, span } => JsonEvent::Attribute {
            key: bytes_to_string(*key),
            value: optional_json(value),
            span: *span,
        },
        Event::Text { content, span } => JsonEvent::Text {
            content: bytes_to_string(*content),
            span: *span,
        },
        Event::Comment { content, span } => JsonEvent::Comment {
            content: bytes_to_string(*content),
            span: *span,
        },
        Event::Error { message, span } => JsonEvent::Error {
            message: (*message).to_owned(),
            span: *span,
        },
        Event::EmbeddedStart { name, id, classes, span } => JsonEvent::EmbeddedStart {
            name: optional_text(*name),
            id: optional_json(id),
            classes: class_texts(classes),
            span: *span,
        },
        Event::EmbeddedEnd { span } => JsonEvent::EmbeddedEnd { span: *span },
        Event::DirectiveStart { name, namespace, is_raw, span } => JsonEvent::DirectiveStart {
            name: bytes_to_string(*name),
            namespace: optional_text(*namespace),
            is_raw: *is_raw,
            span: *span,
        },
        Event::DirectiveEnd { span } => JsonEvent::DirectiveEnd { span: *span },
        Event::InlineDirective { name, namespace, is_raw, content, span } => {
            JsonEvent::InlineDirective {
                name: bytes_to_string(*name),
                namespace: optional_text(*namespace),
                is_raw: *is_raw,
                content: bytes_to_string(*content),
                span: *span,
            }
        },
        Event::Interpolation { expression, span } => JsonEvent::Interpolation {
            expression: bytes_to_string(*expression),
            span: *span,
        },
        Event::RawContent { content, span } => JsonEvent::RawContent {
            content: bytes_to_string(*content),
            span: *span,
        },
        Event::IdReference { id, span } => JsonEvent::IdReference {
            id: bytes_to_string(*id),
            span: *span,
        },
        Event::AttributeMerge { id, span } => JsonEvent::AttributeMerge {
            id: bytes_to_string(*id),
            span: *span,
        },
        Event::FreeformStart { span } => JsonEvent::FreeformStart { span: *span },
        Event::FreeformEnd { span } => JsonEvent::FreeformEnd { span: *span },
    }
}

} // verus!
