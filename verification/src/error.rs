//! Error taxonomy for the encode and decode directions.

use vstd::prelude::*;

verus! {

/// A failure while producing a CBOR data item.
#[derive(Debug, Clone, Copy, PartialEq, Eq, Structural)]
pub enum EncodeError {
    /// A data item length above `2^64 - 1` cannot be represented on the wire.
    LengthOutOfBounds,
}

/// A failure while reading a CBOR data item.
///
/// Every decode routine aborts on the first failure and surfaces it
/// unchanged; no partial value is ever returned.
#[derive(Debug, Clone, Copy, PartialEq, Eq, Structural)]
pub enum DecodeError {
    /// The input source could not supply the bytes the item demands.
    Io,
    /// A reserved additional-information value, or a break marker in a
    /// context that forbids it.
    MalformedHeader,
    /// The item's major type does not match what the requested shape requires.
    UnexpectedMajorType,
    /// A decoded magnitude is too large for the requested integer width.
    IntegerOverflow,
    /// A reconstructed negative value lies below the requested width's minimum.
    IntegerUnderflow,
    /// A text-string payload is not valid UTF-8.
    InvalidUtf8,
    /// A sum-type variant is not a definite-length array of exactly two items.
    MalformedVariant,
}

/// The main error type: a failure on either side of the codec.
#[derive(Debug, Clone, Copy, PartialEq, Eq, Structural)]
pub enum Error {
    /// An error while encoding a CBOR data sequence.
    Encode(EncodeError),
    /// An error while decoding a CBOR data sequence.
    Decode(DecodeError),
}

impl From<EncodeError> for Error {
    fn from(e: EncodeError) -> (r: Error) {
        Error::Encode(e)
    }
}

impl vstd::std_specs::convert::FromSpecImpl<EncodeError> for Error {
    open spec fn obeys_from_spec() -> bool {
        true
    }

    open spec fn from_spec(e: EncodeError) -> Error {
        Error::Encode(e)
    }
}

impl From<DecodeError> for Error {
    fn from(e: DecodeError) -> (r: Error) {
        Error::Decode(e)
    }
}

impl vstd::std_specs::convert::FromSpecImpl<DecodeError> for Error {
    open spec fn obeys_from_spec() -> bool {
        true
    }

    open spec fn from_spec(e: DecodeError) -> Error {
        Error::Decode(e)
    }
}

} // verus!
