//! The typed outcomes that take the place of failure inside the library.

use vstd::prelude::*;

verus! {

/// Why reading a container, or one record of it, did not succeed.
#[derive(Clone, Copy, Debug, PartialEq, Eq, Structural)]
pub enum DecodeError {
    /// The header carries the tag of another kind of container.
    InvalidMagic,
    /// Fewer bytes remain than a field or a record requires.
    UnexpectedEnd,
    /// The source ended before the declared number of records was reached.
    Truncated,
    /// The bytes of a log message are not well-formed UTF-8.
    InvalidUtf8,
    /// A mixed record opens with a byte that names no record type.
    UnknownRecordType,
}

/// Why forwarding a record to the broker did not succeed.
#[derive(Clone, Copy, Debug, PartialEq, Eq, Structural)]
pub enum PublishError {
    /// The record could not be turned into a payload.
    SerializationFailure,
    /// The broker rejected the message or did not answer in time.
    PublishFailure,
    /// The final flush did not complete in time.
    FlushFailure,
}

} // verus!
