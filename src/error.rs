use vstd::prelude::*;

use crate::schema::{PrimitiveType, RecordType};

verus! {

/// Every way a decode can fail. All of them abort the whole decode.
#[derive(Debug, Clone, Copy, PartialEq, Eq, Structural)]
pub enum DecodeError {
    /// The stream ended before a read of this many bytes could complete.
    UnexpectedEnd,
    /// A variable-length integer whose value does not fit in `usize`.
    BadVariableLength,
    /// A length-prefixed string did not hold valid UTF-8.
    InvalidUtf8,
    /// A record tag outside the known record kinds.
    UnknownRecordType(u8),
    /// A binary-type tag outside the known binary types.
    UnknownBinaryType(u8),
    /// A primitive-type tag outside the known primitive types.
    UnknownPrimitiveType(u8),
    /// An array-shape tag outside the known array shapes.
    UnknownArrayType(u8),
    /// A primitive kind that is declared by the format but not decoded.
    UnsupportedPrimitive(PrimitiveType),
    /// A record kind that is recognised but not decoded.
    UnsupportedRecord(RecordType),
    /// The stream header carried a major version other than 1.
    WrongMajorVersion(i32),
    /// The stream header carried a minor version other than 0.
    WrongMinorVersion(i32),
    /// A record instantiated a class id that no earlier record defined.
    UnknownClass(i32),
    /// A class field whose binary type and additional info have no decoder.
    NoParser,
    /// A count or length field was negative.
    NegativeLength(i32),
    /// The element count of an array does not fit in memory.
    ArrayTooLarge,
    /// Following references nested deeper than the stream has records, which
    /// only a cycle of references can cause.
    ReferenceCycle(i32),
    /// The resolved root still held a control record's empty value, which
    /// a record in a value's place leaves there.
    MisplacedControlRecord,
    /// The record after the root object was not a control record.
    MissingEnd,
}

} // verus!
