//! Parser events: the flat, ordered output of a parse.

use vstd::prelude::*;
use crate::span::{span_of, Span};
use crate::value::{option_view, Value, ValueView};

verus! {

/// The kinds of diagnostics. Each has one fixed message.
#[derive(Clone, Copy, Debug, PartialEq, Eq, Structural)]
pub enum ErrorKind {
    /// A line's indentation shares no prefix relation with an open block's.
    InconsistentIndentation,
    /// `!{`, `!name{`, `|{`, `"` or `[` without its closing delimiter.
    UnterminatedInline,
    /// An invalid byte where a name or class identifier is expected.
    MalformedHeader,
    /// `[id` or `@[id` without `]`.
    MissingBracket,
    /// An integer literal outside the signed 64-bit range.
    IntegerOverflow,
    /// A literal with float syntax that is not a well-formed float.
    InvalidFloat,
    /// A byte after an element header that is no suffix.
    UnknownSuffix,
    /// A structural byte out of context.
    UnexpectedCharacter,
}

impl ErrorKind {
    /// The message of this kind, as characters.
    pub open spec fn text(self) -> Seq<char> {
        match self {
            ErrorKind::InconsistentIndentation => "inconsistent indentation"@,
            ErrorKind::UnterminatedInline => "unterminated inline construct"@,
            ErrorKind::MalformedHeader => "malformed element header"@,
            ErrorKind::MissingBracket => "missing closing bracket"@,
            ErrorKind::IntegerOverflow => "integer overflow"@,
            ErrorKind::InvalidFloat => "invalid float"@,
            ErrorKind::UnknownSuffix => "unknown suffix"@,
            ErrorKind::UnexpectedCharacter => "unexpected character"@,
        }
    }

    /// The message of this kind.
    pub fn message(self) -> (m: &'static str)
        ensures
            m@ == self.text(),
    {
        match self {
            ErrorKind::InconsistentIndentation => "inconsistent indentation",
            ErrorKind::UnterminatedInline => "unterminated inline construct",
            ErrorKind::MalformedHeader => "malformed element header",
            ErrorKind::MissingBracket => "missing closing bracket",
            ErrorKind::IntegerOverflow => "integer overflow",
            ErrorKind::InvalidFloat => "invalid float",
            ErrorKind::UnknownSuffix => "unknown suffix",
            ErrorKind::UnexpectedCharacter => "unexpected character",
        }
    }
}

/// Each kind has a message of its own: two kinds never share one.
pub proof fn lemma_messages_distinct(a: ErrorKind, b: ErrorKind)
    requires
        a != b,
    ensures
        a.text() != b.text(),
{
    reveal_strlit("inconsistent indentation");
    reveal_strlit("unterminated inline construct");
    reveal_strlit("malformed element header");
    reveal_strlit("missing closing bracket");
    reveal_strlit("integer overflow");
    reveal_strlit("invalid float");
    reveal_strlit("unknown suffix");
    reveal_strlit("unexpected character");
    if a.text().len() == b.text().len() {
        assert(a.text()[0] != b.text()[0]);
    }
}

/// One parser event. Every byte payload borrows from the source buffer.
#[allow(inconsistent_fields)]
#[derive(Debug)]
pub enum Event<'a> {
    /// Element start: `|name[id].class1.class2`.
    ElementStart {
        /// Element name; `None` for anonymous elements such as `|[id]`.
        name: Option<&'a [u8]>,
        /// Identity from `[id]`.
        id: Option<Value<'a>>,
        /// Class names from `.class`, in source order.
        classes: Vec<&'a [u8]>,
        /// Suffix: `?`, `!`, `*` or `+`.
        suffix: Option<char>,
        span: Span,
    },
    /// Element end.
    ElementEnd { span: Span },
    /// Attribute `:key value`; a flag attribute has no value.
    Attribute { key: &'a [u8], value: Option<Value<'a>>, span: Span },
    /// Embedded element start: `|{`.
    EmbeddedStart {
        name: Option<&'a [u8]>,
        id: Option<Value<'a>>,
        classes: Vec<&'a [u8]>,
        span: Span,
    },
    /// Embedded element end: `}`.
    EmbeddedEnd { span: Span },
    /// Block directive start: `!name` or `!ns:name`.
    DirectiveStart { name: &'a [u8], namespace: Option<&'a [u8]>, is_raw: bool, span: Span },
    /// Block directive end.
    DirectiveEnd { span: Span },
    /// Inline directive: `!name{content}`.
    InlineDirective {
        name: &'a [u8],
        namespace: Option<&'a [u8]>,
        is_raw: bool,
        /// Bytes between the braces, verbatim.
        content: &'a [u8],
        span: Span,
    },
    /// Interpolation: `!{expression}`.
    Interpolation { expression: &'a [u8], span: Span },
    /// Prose.
    Text { content: &'a [u8], span: Span },
    /// Bytes captured verbatim under a raw directive or inside a fence.
    RawContent { content: &'a [u8], span: Span },
    /// Comment: `; text`.
    Comment { content: &'a [u8], span: Span },
    /// Id reference: `@[id]`.
    IdReference { id: &'a [u8], span: Span },
    /// Attribute merge: `:[id]`.
    AttributeMerge { id: &'a [u8], span: Span },
    /// Opening fence of a freeform block.
    FreeformStart { span: Span },
    /// End of a freeform block.
    FreeformEnd { span: Span },
    /// Diagnostic; parsing continues after it.
    Error { message: &'static str, span: Span },
}

/// Mathematical model of an [`Event`]: byte payloads are sequences.
#[allow(inconsistent_fields)]
pub enum EventView {
    ElementStart {
        name: Option<Seq<u8>>,
        id: Option<ValueView>,
        classes: Seq<Seq<u8>>,
        suffix: Option<char>,
        span: Span,
    },
    ElementEnd { span: Span },
    Attribute { key: Seq<u8>, value: Option<ValueView>, span: Span },
    EmbeddedStart { name: Option<Seq<u8>>, id: Option<ValueView>, classes: Seq<Seq<u8>>, span: Span },
    EmbeddedEnd { span: Span },
    DirectiveStart { name: Seq<u8>, namespace: Option<Seq<u8>>, is_raw: bool, span: Span },
    DirectiveEnd { span: Span },
    InlineDirective {
        name: Seq<u8>,
        namespace: Option<Seq<u8>>,
        is_raw: bool,
        content: Seq<u8>,
        span: Span,
    },
    Interpolation { expression: Seq<u8>, span: Span },
    Text { content: Seq<u8>, span: Span },
    RawContent { content: Seq<u8>, span: Span },
    Comment { content: Seq<u8>, span: Span },
    IdReference { id: Seq<u8>, span: Span },
    AttributeMerge { id: Seq<u8>, span: Span },
    FreeformStart { span: Span },
    FreeformEnd { span: Span },
    Error { message: Seq<char>, span: Span },
}

impl EventView {
    /// The source range of the event.
    pub open spec fn span(self) -> Span {
        match self {
            EventView::ElementStart { span, .. } => span,
            EventView::ElementEnd { span } => span,
            EventView::Attribute { span, .. } => span,
            EventView::EmbeddedStart { span, .. } => span,
            EventView::EmbeddedEnd { span } => span,
            EventView::DirectiveStart { span, .. } => span,
            EventView::DirectiveEnd { span } => span,
            EventView::InlineDirective { span, .. } => span,
            EventView::Interpolation { span, .. } => span,
            EventView::Text { span, .. } => span,
            EventView::RawContent { span, .. } => span,
            EventView::Comment { span, .. } => span,
            EventView::IdReference { span, .. } => span,
            EventView::AttributeMerge { span, .. } => span,
            EventView::FreeformStart { span } => span,
            EventView::FreeformEnd { span } => span,
            EventView::Error { span, .. } => span,
        }
    }
}

/// The model of an optional byte slice.
pub open spec fn option_bytes(bytes: Option<&[u8]>) -> Option<Seq<u8>> {
    match bytes {
        Some(b) => Some(b@),
        None => None,
    }
}

/// The models of a sequence of byte slices, item by item.
pub open spec fn slices_view(items: Seq<&[u8]>) -> Seq<Seq<u8>> {
    Seq::new(items.len(), |k: int| items[k]@)
}

impl<'a> View for Event<'a> {
    type V = EventView;

    open spec fn view(&self) -> EventView {
        match *self {
            Event::ElementStart { name, id, classes, suffix, span } => EventView::ElementStart {
                name: option_bytes(name),
                id: option_view(id),
                classes: slices_view(classes@),
                suffix,
                span,
            },
            Event::ElementEnd { span } => EventView::ElementEnd { span },
            Event::Attribute { key, value, span } => EventView::Attribute {
                key: key@,
                value: option_view(value),
                span,
            },
            Event::EmbeddedStart { name, id, classes, span } => EventView::EmbeddedStart {
                name: option_bytes(name),
                id: option_view(id),
                classes: slices_view(classes@),
                span,
            },
            Event::EmbeddedEnd { span } => EventView::EmbeddedEnd { span },
            Event::DirectiveStart { name, namespace, is_raw, span } => EventView::DirectiveStart {
                name: name@,
                namespace: option_bytes(namespace),
                is_raw,
                span,
            },
            Event::DirectiveEnd { span } => EventView::DirectiveEnd { span },
            Event::InlineDirective {
                name,
                namespace,
                is_raw,
                content,
                span,
            } => EventView::InlineDirective {
                name: name@,
                namespace: option_bytes(namespace),
                is_raw,
                content: content@,
                span,
            },
            Event::Interpolation { expression, span } => EventView::Interpolation {
                expression: expression@,
                span,
            },
            Event::Text { content, span } => EventView::Text { content: content@, span },
            Event::RawContent { content, span } => EventView::RawContent { content: content@, span },
            Event::Comment { content, span } => EventView::Comment { content: content@, span },
            Event::IdReference { id, span } => EventView::IdReference { id: id@, span },
            Event::AttributeMerge { id, span } => EventView::AttributeMerge { id: id@, span },
            Event::FreeformStart { span } => EventView::FreeformStart { span },
            Event::FreeformEnd { span } => EventView::FreeformEnd { span },
            Event::Error { message, span } => EventView::Error { message: message@, span },
        }
    }
}

/// The models of a sequence of events, item by item.
pub open spec fn events_view(events: Seq<Event>) -> Seq<EventView> {
    Seq::new(events.len(), |k: int| events[k]@)
}

/// Appending an event appends its model.
pub proof fn lemma_events_view_push(events: Seq<Event>, event: Event)
    ensures
        events_view(events.push(event)) == events_view(events).push(event@),
{
    assert(events_view(events.push(event)) =~= events_view(events).push(event@));
}

/// The model of a concatenation is the concatenation of the models.
pub proof fn lemma_events_view_add(a: Seq<Event>, b: Seq<Event>)
    ensures
        events_view(a + b) == events_view(a) + events_view(b),
{
    assert(events_view(a + b) =~= events_view(a) + events_view(b));
}

/// Appends one event.
pub fn emit<'a>(events: &mut Vec<Event<'a>>, event: Event<'a>)
    ensures
        events_view(final(events)@) == events_view(old(events)@).push(event@),
{
    proof {
        lemma_events_view_push(events@, event);
    }
    events.push(event);
}

/// Moves every event of `pending` to the end of `events`.
pub fn emit_all<'a>(events: &mut Vec<Event<'a>>, pending: &mut Vec<Event<'a>>)
    ensures
        events_view(final(events)@) == events_view(old(events)@) + events_view(old(pending)@),
        final(pending)@.len() == 0,
{
    proof {
        lemma_events_view_add(events@, pending@);
    }
    events.append(pending);
}

/// The diagnostic of `kind` over `[start, end)`.
pub open spec fn error_event(kind: ErrorKind, start: int, end: int) -> EventView {
    EventView::Error { message: kind.text(), span: span_of(start, end) }
}

/// Appends a diagnostic of `kind` over `[start, end)`.
pub fn push_error<'a>(events: &mut Vec<Event<'a>>, kind: ErrorKind, start: usize, end: usize)
    ensures
        events_view(final(events)@) == events_view(old(events)@).push(
            error_event(kind, start as int, end as int),
        ),
{
    let event = Event::Error { message: kind.message(), span: Span::new(start, end) };
    proof {
        lemma_events_view_push(events@, event);
    }
    events.push(event);
}

/// Copies a list of slices; the copies borrow the same bytes.
fn clone_slices<'a>(items: &Vec<&'a [u8]>) -> (copies: Vec<&'a [u8]>)
    ensures
        copies@ == items@,
{
    let mut copies: Vec<&'a [u8]> = Vec::new();
    let mut k: usize = 0;
    while k < items.len()
        invariant
            k <= items.len(),
            copies@ == items@.take(k as int),
        decreases items.len() - k,
    {
        copies.push(items[k]);
        assert(items@.take(k as int).push(items@[k as int]) =~= items@.take(k + 1));
        k = k + 1;
    }
    assert(items@.take(items.len() as int) =~= items@);
    copies
}

/// Copies an optional value.
fn clone_value<'a>(value: &Option<Value<'a>>) -> (copy: Option<Value<'a>>)
    ensures
        option_view(copy) == option_view(*value),
{
    match value {
        Some(v) => Some(v.clone()),
        None => None,
    }
}

impl<'a> Clone for Event<'a> {
    /// A clone has the same model; byte payloads still borrow from the
    /// source buffer.
    fn clone(&self) -> (r: Self)
        ensures
            r@ == self@,
    {
        match self {
            Event::ElementStart { name, id, classes, suffix, span } => Event::ElementStart {
                name: *name,
                id: clone_value(id),
                classes: clone_slices(classes),
                suffix: *suffix,
                span: *span,
            },
            Event::ElementEnd { span } => Event::ElementEnd { span: *span },
            Event::Attribute { key, value, span } => Event::Attribute {
                key: *key,
                value: clone_value(value),
                span: *span,
            },
            Event::EmbeddedStart { name, id, classes, span } => Event::EmbeddedStart {
                name: *name,
                id: clone_value(id),
                classes: clone_slices(classes),
                span: *span,
            },
            Event::EmbeddedEnd { span } => Event::EmbeddedEnd { span: *span },
            Event::DirectiveStart { name, namespace, is_raw, span } => Event::DirectiveStart {
                name: *name,
                namespace: *namespace,
                is_raw: *is_raw,
                span: *span,
            },
            Event::DirectiveEnd { span } => Event::DirectiveEnd { span: *span },
            Event::InlineDirective { name, namespace, is_raw, content, span } => {
                Event::InlineDirective {
                    name: *name,
                    namespace: *namespace,
                    is_raw: *is_raw,
                    content: *content,
                    span: *span,
                }
            },
            Event::Interpolation { expression, span } => Event::Interpolation {
                expression: *expression,
                span: *span,
            },
            Event::Text { content, span } => Event::Text { content: *content, span: *span },
            Event::RawContent { content, span } => Event::RawContent {
                content: *content,
                span: *span,
            },
            Event::Comment { content, span } => Event::Comment { content: *content, span: *span },
            Event::IdReference { id, span } => Event::IdReference { id: *id, span: *span },
            Event::AttributeMerge { id, span } => Event::AttributeMerge { id: *id, span: *span },
            Event::FreeformStart { span } => Event::FreeformStart { span: *span },
            Event::FreeformEnd { span } => Event::FreeformEnd { span: *span },
            Event::Error { message, span } => Event::Error { message: *message, span: *span },
        }
    }
}

impl<'a> Event<'a> {
    /// The source range of this event.
    pub fn span(&self) -> (s: Span)
        ensures
            s == self@.span(),
    {
        match self {
            Event::ElementStart { span, .. } => *span,
            Event::ElementEnd { span } => *span,
            Event::Attribute { span, .. } => *span,
            Event::EmbeddedStart { span, .. } => *span,
            Event::EmbeddedEnd { span } => *span,
            Event::DirectiveStart { span, .. } => *span,
            Event::DirectiveEnd { span } => *span,
            Event::InlineDirective { span, .. } => *span,
            Event::Interpolation { span, .. } => *span,
            Event::Text { span, .. } => *span,
            Event::RawContent { span, .. } => *span,
            Event::Comment { span, .. } => *span,
            Event::IdReference { span, .. } => *span,
            Event::AttributeMerge { span, .. } => *span,
            Event::FreeformStart { span } => *span,
            Event::FreeformEnd { span } => *span,
            Event::Error { span, .. } => *span,
        }
    }

    /// Whether this event is a diagnostic.
    pub fn is_error(&self) -> (r: bool)
        ensures
            r == (self@ is Error),
    {
        matches!(self, Event::Error { .. })
    }
}

} // verus!
