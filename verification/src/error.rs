//! The kinds of failure that a codec reports.

use vstd::prelude::*;

verus! {

/// What went wrong in an encode or decode call.
#[derive(Clone, Copy, Debug, PartialEq, Eq, Hash, Structural)]
pub enum ErrorKind {
    /// The tag on the wire is not the tag that was asked for.
    TagMismatch,
    /// A length determinant is not in the form that the constraint selects.
    MalformedLength,
    /// A value or a count lies outside the declared constraint.
    OutOfRange,
    /// An integer does not fit the fixed-width type it was asked into.
    NarrowingOverflow,
    /// The input ended before the value did.
    EndOfInput,
    /// The bits present are not what the format lays down for the value.
    Violation,
    /// A failure that only a message describes.
    Custom,
}

} // verus!
