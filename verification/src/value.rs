//! Attribute values. The syntax of a value decides its type; nothing is
//! inferred from content after the fact.

use vstd::prelude::*;

verus! {

/// An attribute value. Every byte payload borrows from the source buffer.
///
/// Floating-point values are kept as their literal text: `Float` holds the
/// lexeme of a well-formed decimal literal, and `Complex` holds the lexemes
/// of its two parts (an absent real part is the empty slice). Digit
/// separators (`_`) are still present in these slices.
#[derive(Debug, PartialEq)]
pub enum Value<'a> {
    /// `null`, `nil` or `~`.
    Nil,
    /// `true` or `false`.
    Bool(bool),
    /// `42`, `-7`, `0xFF`, `0o755`, `0b1010`, `1_000`.
    Integer(i64),
    /// `3.14`, `1.5e-3`, `2e10`: the literal's text.
    Float(&'a [u8]),
    /// `1/3r`, `-22/7r`.
    Rational { numerator: i64, denominator: i64 },
    /// `3+4i`, `5i`: the text of the real part and of the signed imaginary part.
    Complex { real: &'a [u8], imag: &'a [u8] },
    /// Unquoted bare token.
    String(&'a [u8]),
    /// Interior of a quoted string, escapes untouched.
    QuotedString(&'a [u8]),
    /// `[a b c]`.
    List(Vec<Value<'a>>),
}

/// Mathematical model of a [`Value`]: byte payloads are sequences.
pub enum ValueView {
    Nil,
    Bool(bool),
    Integer(i64),
    Float(Seq<u8>),
    Rational { numerator: i64, denominator: i64 },
    Complex { real: Seq<u8>, imag: Seq<u8> },
    String(Seq<u8>),
    QuotedString(Seq<u8>),
    List(Seq<ValueView>),
}

/// The model of a value.
pub open spec fn value_model(value: Value) -> ValueView
    decreases value, 0nat,
{
    match value {
        Value::Nil => ValueView::Nil,
        Value::Bool(b) => ValueView::Bool(b),
        Value::Integer(i) => ValueView::Integer(i),
        Value::Float(text) => ValueView::Float(text@),
        Value::Rational { numerator, denominator } => ValueView::Rational { numerator, denominator },
        Value::Complex { real: re, imag: im } => ValueView::Complex { real: re@, imag: im@ },
        Value::String(bytes) => ValueView::String(bytes@),
        Value::QuotedString(bytes) => ValueView::QuotedString(bytes@),
        Value::List(items) => ValueView::List(values_model(items, items@.len())),
    }
}

/// The models of the first `n` items of a list, in order.
pub open spec fn values_model(items: Vec<Value>, n: nat) -> Seq<ValueView>
    decreases items, n,
{
    if 0 < n <= items.len() {
        values_model(items, (n - 1) as nat).push(value_model(items[n - 1]))
    } else {
        Seq::empty()
    }
}

impl<'a> View for Value<'a> {
    type V = ValueView;

    open spec fn view(&self) -> ValueView {
        value_model(*self)
    }
}

/// The models of a sequence of values, item by item.
pub open spec fn values_view(items: Seq<Value>) -> Seq<ValueView> {
    Seq::new(items.len(), |k: int| items[k]@)
}

/// The model of an optional value.
pub open spec fn option_view(value: Option<Value>) -> Option<ValueView> {
    match value {
        Some(v) => Some(v@),
        None => None,
    }
}

proof fn lemma_values_model(items: Vec<Value>, n: nat)
    requires
        n <= items.len(),
    ensures
        values_model(items, n) == values_view(items@.take(n as int)),
    decreases n,
{
    if n > 0 {
        lemma_values_model(items, (n - 1) as nat);
        assert(values_view(items@.take(n - 1)).push(items[n - 1]@) =~= values_view(
            items@.take(n as int),
        ));
    } else {
        assert(values_model(items, n) =~= values_view(items@.take(n as int)));
    }
}

/// The model of a list is the list of its items' models.
pub proof fn lemma_list_view(items: Vec<Value>)
    ensures
        Value::List(items)@ == ValueView::List(values_view(items@)),
{
    lemma_values_model(items, items.len() as nat);
    assert(items@.take(items.len() as int) =~= items@);
}

impl<'a> Clone for Value<'a> {
    /// A clone has the same model; byte payloads still borrow from the
    /// source buffer.
    fn clone(&self) -> (r: Self)
        ensures
            r@ == self@,
        decreases self,
    {
        match self {
            Value::Nil => Value::Nil,
            Value::Bool(b) => Value::Bool(*b),
            Value::Integer(i) => Value::Integer(*i),
            Value::Float(text) => Value::Float(*text),
            Value::Rational { numerator, denominator } => Value::Rational {
                numerator: *numerator,
                denominator: *denominator,
            },
            Value::Complex { real: re, imag: im } => Value::Complex { real: *re, imag: *im },
            Value::String(bytes) => Value::String(*bytes),
            Value::QuotedString(bytes) => Value::QuotedString(*bytes),
            Value::List(items) => {
                let mut copies: Vec<Value<'a>> = Vec::new();
                let mut k: usize = 0;
                while k < items.len()
                    invariant
                        k <= items.len(),
                        copies.len() == k,
                        forall|j: int| 0 <= j < k ==> copies@[j]@ == items@[j]@,
                        *self == Value::List(*items),
                    decreases items.len() - k,
                {
                    proof {
                        assert(self->List_0 == *items);
                        assert(decreases_to!(*self => self->List_0));
                        assert(decreases_to!(*items => items[k as int]));
                    }
                    let copy = items[k].clone();
                    copies.push(copy);
                    k = k + 1;
                }
                proof {
                    lemma_list_view(copies);
                    lemma_list_view(*items);
                    assert(values_view(copies@) =~= values_view(items@));
                }
                Value::List(copies)
            },
        }
    }
}

impl<'a> Value<'a> {
    /// Whether this is the nil value.
    #[inline]
    pub fn is_nil(&self) -> (r: bool)
        ensures
            r == (self@ is Nil),
    {
        matches!(self, Value::Nil)
    }

    /// The boolean, if this is one.
    #[inline]
    pub fn as_bool(&self) -> (r: Option<bool>)
        ensures
            r == (match self@ {
                ValueView::Bool(b) => Some(b),
                _ => None,
            }),
    {
        match self {
            Value::Bool(b) => Some(*b),
            _ => None,
        }
    }

    /// The integer, if this is one.
    #[inline]
    pub fn as_integer(&self) -> (r: Option<i64>)
        ensures
            r == (match self@ {
                ValueView::Integer(i) => Some(i),
                _ => None,
            }),
    {
        match self {
            Value::Integer(i) => Some(*i),
            _ => None,
        }
    }

    /// The bytes of a bare or quoted string, if this is one.
    #[inline]
    pub fn as_bytes(&self) -> (r: Option<&'a [u8]>)
        ensures
            r == (match *self {
                Value::String(s) => Some(s),
                Value::QuotedString(s) => Some(s),
                _ => None,
            }),
    {
        match self {
            Value::String(s) => Some(*s),
            Value::QuotedString(s) => Some(*s),
            _ => None,
        }
    }
}

} // verus!
