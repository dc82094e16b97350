//! GRC-20: a binary interchange codec for batched knowledge-graph edits.
//!
//! The crate holds the data model (identifiers, values, operations, edits),
//! the wire codec with its canonicalisation rules and resource limits, the
//! identity hashing that derives identifiers from content, the semantic
//! validator, and the well-known identifiers of the genesis space.
//!
//! Every function is verified against a contract stated over mathematical
//! views: byte sequences for wire data, and a view type for each model type.
//! The grammar of the wire format is a family of spec functions from the
//! remaining input to a value and the input that follows it; the decoder is
//! proved to compute them, the encoder to write their inverse, and
//! `codec::edit::lemma_edit_roundtrip` states that decoding the encoding of
//! a valid edit gives the edit back.
//!
//! Floating-point payloads are held as IEEE-754 bit patterns (`u64` for
//! binary64), see `model::ieee`. SHA-256 and zstd are called through a
//! small trusted boundary: `model::id::sha256` and
//! `codec::edit::zstd_decoded` name their results.

pub mod error;
pub mod limits;
pub mod model;
pub mod codec;
pub mod genesis;
pub mod validate;
pub mod cities;
