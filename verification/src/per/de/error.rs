//! What the decoder reports when it cannot decode.

use crate::error::ErrorKind;
use vstd::prelude::*;

verus! {

/// The sentence that describes a failure of the kind `kind` with the
/// message `message`.
pub open spec fn sentence(kind: ErrorKind, message: Seq<char>) -> Seq<char> {
    match kind {
        ErrorKind::TagMismatch => "the tag is not the one expected"@,
        ErrorKind::MalformedLength => "the length determinant is malformed"@,
        ErrorKind::OutOfRange => "the value is outside its constraint"@,
        ErrorKind::NarrowingOverflow => "the integer does not fit its type"@,
        ErrorKind::EndOfInput => "the input ended too early"@,
        ErrorKind::Violation => "the bits are not laid out as the format demands"@,
        ErrorKind::Custom => message,
    }
}

/// A failure to decode: its kind, and a message where the kind is `Custom`.
#[derive(Debug)]
pub struct Error {
    pub kind: ErrorKind,
    pub message: String,
}

impl Error {
    /// The failure of the kind `kind`, without a message.
    pub fn new(kind: ErrorKind) -> (e: Error)
        ensures
            e.kind == kind,
            e.message@ == Seq::<char>::empty(),
    {
        Error { kind, message: String::new() }
    }

    /// The failure that `msg` describes.
    pub fn with_message(msg: &str) -> (e: Error)
        ensures
            e.kind == ErrorKind::Custom,
            e.message@ == msg@,
    {
        Error { kind: ErrorKind::Custom, message: msg.to_owned() }
    }

    /// A sentence that says what failed: the message of a custom failure,
    /// else the sentence of the kind.
    pub fn describe(&self) -> (text: &str)
        ensures
            text@ == sentence(self.kind, self.message@),
    {
        match self.kind {
            ErrorKind::TagMismatch => "the tag is not the one expected",
            ErrorKind::MalformedLength => "the length determinant is malformed",
            ErrorKind::OutOfRange => "the value is outside its constraint",
            ErrorKind::NarrowingOverflow => "the integer does not fit its type",
            ErrorKind::EndOfInput => "the input ended too early",
            ErrorKind::Violation => "the bits are not laid out as the format demands",
            ErrorKind::Custom => self.message.as_str(),
        }
    }
}

} // verus!
