//! What a decoder reports when a sentence cannot be read.

use vstd::prelude::*;
use crate::parse::SentenceType;

verus! {

/// The kind of field that was malformed.
#[derive(Debug, Clone, Copy, PartialEq, Eq, Structural)]
pub enum ParseErrorKind {
    /// A one-character code was missing or outside its closed set.
    Code,
    /// The separator between two fields was missing.
    Separator,
    /// A numeric field was neither empty nor a number of its type.
    Number,
    /// A time of day was neither empty nor of the form `hhmmss.ss`.
    Time,
    /// A duration was neither empty nor of the form `hhmmss.ss`.
    Duration,
}

/// Why a sentence could not be decoded.
#[derive(Debug, Clone, Copy, PartialEq, Eq, Structural)]
pub enum Error {
    /// The sentence is of another type than the decoder reads.
    WrongSentenceHeader { expected: SentenceType, found: SentenceType },
    /// A field was malformed. `remaining` is the number of bytes of the data
    /// body that were still unread when the field was met.
    ParsingError { kind: ParseErrorKind, remaining: usize },
    /// A text field was longer than a record can hold.
    ParameterLength { max_length: usize, parameter_length: usize },
}

} // verus!
