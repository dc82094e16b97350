//! Well-known identifiers of the genesis space.
//!
//! The genesis space names core properties, types, relation types and
//! languages. Each identifier is derived from a fixed string, so it is the
//! same wherever it is computed.

pub mod properties;
pub mod types;
pub mod relation_types;
pub mod languages;

use vstd::prelude::*;
use vstd::utf8::encode_utf8;
use crate::model::id::Id;
use crate::model::id::derived_uuid;
use crate::model::id::spec_derived_uuid;

verus! {

/// The identifier of the genesis name `name`: derived from the UTF-8 bytes
/// of `grc20:genesis:` followed by the name.
pub open spec fn spec_genesis_id(name: Seq<char>) -> Seq<u8> {
    spec_derived_uuid(encode_utf8("grc20:genesis:"@ + name))
}

/// The identifier of the language with ISO code `code`: derived from the
/// UTF-8 bytes of `grc20:genesis:language:` followed by the code.
pub open spec fn spec_language_id(code: Seq<char>) -> Seq<u8> {
    spec_derived_uuid(encode_utf8("grc20:genesis:language:"@ + code))
}

/// The UTF-8 bytes of two strings in a row are those of the first followed
/// by those of the second.
pub proof fn lemma_encode_utf8_concat(a: Seq<char>, b: Seq<char>)
    ensures
        encode_utf8(a + b) == encode_utf8(a) + encode_utf8(b),
    decreases a.len(),
{
    if a.len() == 0 {
        assert(a + b =~= b);
        assert(encode_utf8(a) + encode_utf8(b) =~= encode_utf8(b));
    } else {
        lemma_encode_utf8_concat(a.drop_first(), b);
        assert((a + b).drop_first() =~= a.drop_first() + b);
        assert((a + b)[0] == a[0]);
        assert(encode_utf8(a + b) =~= encode_utf8(a) + encode_utf8(b));
    }
}

/// Derives the identifier of the bytes of `prefix` followed by `name`.
fn derive_prefixed(prefix: &str, name: &str) -> (id: Id)
    ensures
        id@ == spec_derived_uuid(encode_utf8(prefix@ + name@)),
        id@[6] & 0xF0 == 0x80,
        id@[8] & 0xC0 == 0x80,
{
    let mut input: Vec<u8> = Vec::new();
    input.extend_from_slice(prefix.as_bytes());
    input.extend_from_slice(name.as_bytes());
    proof {
        lemma_encode_utf8_concat(prefix@, name@);
        assert(input@ =~= encode_utf8(prefix@) + encode_utf8(name@));
    }
    derived_uuid(input.as_slice())
}

/// Derives a genesis identifier from a name.
pub fn genesis_id(name: &str) -> (id: Id)
    ensures
        id@ == spec_genesis_id(name@),
        id@[6] & 0xF0 == 0x80,
        id@[8] & 0xC0 == 0x80,
{
    derive_prefixed("grc20:genesis:", name)
}

/// Derives a language identifier from an ISO language code.
pub fn language_id(code: &str) -> (id: Id)
    ensures
        id@ == spec_language_id(code@),
        id@[6] & 0xF0 == 0x80,
        id@[8] & 0xC0 == 0x80,
{
    derive_prefixed("grc20:genesis:language:", code)
}

} // verus!
