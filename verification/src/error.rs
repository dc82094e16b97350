//! Error types of the codec and the validator.
//!
//! Each taxonomy is a closed enum whose variants carry the context a caller
//! needs to report the failure: the field name, the offending index, the size.

use vstd::prelude::*;
use crate::model::id::Id;
use crate::model::value::DataType;

verus! {

/// Why a byte sequence is not the encoding of an edit.
#[derive(Debug, Clone, PartialEq)]
pub enum DecodeError {
    /// The input ended inside the named field.
    UnexpectedEof { context: &'static str },
    /// The first four bytes are not a known magic.
    InvalidMagic { found: [u8; 4] },
    /// The version byte is not the supported format version.
    UnsupportedVersion { version: u8 },
    /// A boolean byte other than 0 or 1.
    InvalidBool { value: u8 },
    /// An index past the end of the named dictionary.
    IndexOutOfBounds { dict: &'static str, index: u64, size: u64 },
    /// A declared length above the limit of the named field.
    LengthExceedsLimit { field: &'static str, len: u64, max: u64 },
    /// An unknown data type code.
    InvalidDataType { data_type: u8 },
    /// An unknown embedding sub-type code.
    InvalidEmbeddingSubType { sub_type: u8 },
    /// A floating-point payload that is NaN.
    FloatIsNan,
    /// A latitude outside [-90, 90]; carries the IEEE-754 bits.
    LatitudeOutOfRange { lat: u64 },
    /// A longitude outside [-180, 180]; carries the IEEE-754 bits.
    LongitudeOutOfRange { lon: u64 },
    /// A big mantissa with a redundant leading sign byte.
    DecimalMantissaNotMinimal,
    /// A decimal whose zero has a non-zero exponent, or whose mantissa is divisible by ten.
    DecimalNotNormalized,
    /// A position string with a character outside `[0-9A-Za-z]`.
    InvalidPositionChar { char: char },
    /// Any other violation of the wire grammar.
    MalformedEncoding { context: &'static str },
    /// The zstd stream could not be decompressed.
    DecompressionFailed { msg: String },
    /// The decompressed length differs from the declared one.
    UncompressedSizeMismatch { declared: u64, actual: u64 },
    /// A varint that does not end within ten bytes or overflows 64 bits.
    VarintTooLong,
}

/// Why a value, an operation or an edit cannot be encoded.
#[derive(Debug, Clone, PartialEq)]
pub enum EncodeError {
    /// A floating-point payload that is NaN.
    FloatIsNan,
    /// A latitude outside [-90, 90].
    LatitudeOutOfRange,
    /// A longitude outside [-180, 180].
    LongitudeOutOfRange,
    /// A decimal whose zero has a non-zero exponent, or whose mantissa is divisible by ten.
    DecimalNotNormalized,
    /// Embedding data whose length or unused bits disagree with the dimensions.
    EmbeddingDimensionMismatch { sub_type: u8, dims: usize, data_len: usize },
    /// A position string longer than the limit.
    PositionTooLong,
    /// A position string with a character outside `[0-9A-Za-z]`.
    InvalidPositionChar,
    /// A date string that is not an ISO-8601 calendar date.
    InvalidDate { reason: &'static str },
    /// The zstd compressor reported an error.
    CompressionFailed { msg: String },
}

/// Why an edit does not conform to a schema.
#[derive(Debug, Clone, PartialEq)]
pub enum ValidationError {
    /// A value whose type differs from the type its property is known to have.
    TypeMismatch { property: Id, expected: DataType },
    /// A property declaration that disagrees with the schema.
    DataTypeInconsistent { property: Id, schema: DataType, declared: DataType },
}

} // verus!
