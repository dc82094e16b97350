//! Security limits for encoding and decoding.
//!
//! The limits bound every length that untrusted input can declare, so that
//! decoding never allocates more than the input justifies.

use vstd::prelude::*;

verus! {

/// Maximum bytes for a varint (a 64-bit LEB128 value never needs more).
pub const MAX_VARINT_BYTES: usize = 10;

/// Maximum length for string fields (16 MiB).
pub const MAX_STRING_LEN: usize = 16777216;

/// Maximum length for bytes fields (64 MiB).
pub const MAX_BYTES_LEN: usize = 67108864;

/// Maximum embedding dimensions.
pub const MAX_EMBEDDING_DIMS: usize = 65536;

/// Maximum embedding data bytes (four bytes per dimension).
pub const MAX_EMBEDDING_BYTES: usize = 262144;

/// Maximum operations per edit.
pub const MAX_OPS_PER_EDIT: usize = 1000000;

/// Maximum values per entity operation.
pub const MAX_VALUES_PER_ENTITY: usize = 10000;

/// Maximum authors per edit.
pub const MAX_AUTHORS: usize = 1000;

/// Maximum entries in any dictionary.
pub const MAX_DICT_SIZE: usize = 1000000;

/// Maximum total edit size after decompression (256 MiB).
pub const MAX_EDIT_SIZE: usize = 268435456;

/// Maximum position string length in bytes.
pub const MAX_POSITION_LEN: usize = 64;

/// Magic bytes for uncompressed edits: ASCII `GRC2`.
pub const MAGIC_UNCOMPRESSED: [u8; 4] = [0x47, 0x52, 0x43, 0x32];

/// Magic bytes for zstd-compressed edits: ASCII `GRC2Z`.
pub const MAGIC_COMPRESSED: [u8; 5] = [0x47, 0x52, 0x43, 0x32, 0x5A];

/// Current binary format version.
///
/// In version 1 a point is an ordinate count of 2 or 3 followed by
/// longitude, latitude and, with count 3, altitude, each as eight
/// little-endian bytes; data type code 7 is a timestamp and code 11 a
/// reference.
pub const FORMAT_VERSION: u8 = 1;

} // verus!
