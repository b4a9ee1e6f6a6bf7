use crate::protocol::types::IndexName;
use vstd::prelude::*;

verus! {

/// Which configured or built-in bound a decode ran into.
#[derive(Debug, Clone, Copy, PartialEq, Eq)]
pub enum LimitKind {
    /// An array announced more elements than the configured maximum, or a negative number
    /// of them.
    ElementCount,
    /// A blob or bit array announced more bytes than the configured maximum, or a negative
    /// number of them.
    ByteLength,
    /// A versioned struct announced more entries than the configured maximum, or a negative
    /// number of them.
    FieldCount,
    /// A descriptor asks for more than 64 bits in one read.
    BitWidth,
    /// An integer does not fit the 64-bit signed range of a parsed value.
    IntegerRange,
}

/// Why decoding a byte stream stopped. Every error is fatal to the decode in progress.
#[derive(Debug, Clone, Copy, PartialEq, Eq)]
pub enum DecodeError {
    /// The stream ended before the read was complete.
    EndOfInput,
    /// Versioned dialect: the byte at `offset` was `actual` where `expected` had to stand.
    UnexpectedTag { expected: u8, actual: u8, offset: usize },
    /// No branch of the choice at `type_index` answers to `tag`.
    UnknownChoiceTag { tag: i64, type_index: usize },
    /// Versioned dialect: the struct at `type_index` has no field left for `tag`.
    UnknownFieldTag { tag: i64, type_index: usize },
    /// `type_index` names no entry of the type table.
    InvalidIndex { type_index: usize },
    /// A bound on sizes was exceeded.
    ResourceLimit { kind: LimitKind },
    /// Values nest deeper than the configured maximum.
    DepthLimit,
    /// An event stream ends in an incomplete event, which starts at `offset`, and the
    /// bytes from there on are not all zero.
    TrailingGarbage { offset: usize },
    /// The event that starts at `offset` of an event stream reads no bit of it, so the
    /// stream could never be read to its end.
    EmptyEvent { offset: usize },
    /// An array element of the type at `type_index` decoded as an absent optional.
    AbsentElement { type_index: usize },
    /// The protocol lacks an index that this decode needs.
    MissingIndex { name: IndexName },
    /// An event header did not hold the integer that was expected there.
    MalformedEventHeader,
    /// The event map of the stream has no entry for `event_id`.
    UnknownEventId { event_id: i64 },
}

} // verus!
