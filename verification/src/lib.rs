//! Streaming, event-based parser core for UDON (Universal Document & Object
//! Notation), an indentation-sensitive markup format of elements,
//! attributes, directives, prose and typed values.
//!
//! The parser consumes a byte buffer and emits a flat, ordered sequence of
//! structural events; it never builds a tree. Every payload is a slice of
//! the input buffer, and errors are events like any other: no input makes
//! the parser stop early.
//!
//! # Layers
//!
//! - [`lex`]: byte classes, runs, closing quotes and braces.
//! - [`number`]: digit runs and the shapes of numeric literals.
//! - [`values`]: the value scanner.
//! - [`header`], [`attribute`], [`inline`], [`line`]: what stands on one
//!   line.
//! - [`indent`], [`block`], [`parser`]: blocks, the indentation stack and
//!   the driver.
//! - [`abi`]: flat records of events and a pull cursor, for bindings.
//! - [`json`]: events as records of owned text, for serialisers.
//!
//! # What is proved
//!
//! Every scanner returns exactly what its model says: [`Parser::parse`]
//! returns the events of [`parser::document_events`], a function of the
//! input bytes. Of those events it is proved, for every input, that
//!
//! - every span lies inside the buffer and no event starts before an
//!   earlier one ([`order`]);
//! - each family of start and end events balances ([`balance`]), and no end
//!   comes before its start ([`depth`]);
//! - an empty buffer and a buffer of blank lines have no events
//!   ([`parser`]).

pub mod abi;
pub mod attribute;
pub mod balance;
pub mod block;
pub mod depth;
pub mod event;
pub mod header;
pub mod indent;
pub mod inline;
pub mod json;
pub mod lex;
pub mod line;
pub mod number;
pub mod order;
pub mod parser;
pub mod span;
pub mod value;
pub mod values;

pub use event::{ErrorKind, Event};
pub use parser::Parser;
pub use span::{Location, Span};
pub use value::Value;
