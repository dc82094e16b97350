//! Identifiers: sixteen raw bytes shared by every kind of object, and the
//! hashing that derives them from content.

use vstd::prelude::*;

verus! {

/// A 16-byte identifier.
///
/// Entities, relations, properties, types, languages, authors and spaces all
/// share this type. Its view is the sequence of its bytes.
pub type Id = [u8; 16];

/// The nil identifier: sixteen zero bytes.
pub const NIL_ID: Id = [0, 0, 0, 0, 0, 0, 0, 0, 0, 0, 0, 0, 0, 0, 0, 0];

/// The view of an optional identifier.
pub open spec fn opt_id_view(id: Option<Id>) -> Option<Seq<u8>> {
    match id {
        Some(id) => Some(id@),
        None => None,
    }
}

// ---------------------------------------------------------------------------
// SHA-256
// ---------------------------------------------------------------------------

/// The SHA-256 digest of a byte sequence: 32 bytes that depend on the input
/// alone.
pub uninterp spec fn sha256(input: Seq<u8>) -> Seq<u8>;

/// Calls `sha2::Sha256::digest`.
///
/// Trusted: the 32 bytes returned are the SHA-256 digest of `input`.
#[verifier::external_body]
fn sha256_digest(input: &[u8]) -> (hash: [u8; 32])
    ensures
        hash@ == sha256(input@),
{
    <sha2::Sha256 as sha2::Digest>::digest(input).into()
}

// ---------------------------------------------------------------------------
// Derivation
// ---------------------------------------------------------------------------

/// The UUIDv8 made of a digest: its first sixteen bytes, with the version
/// nibble of byte 6 forced to 8 and the top bits of byte 8 forced to `10`.
pub open spec fn uuid_of_hash(hash: Seq<u8>) -> Seq<u8> {
    hash.take(16).update(6, (hash[6] & 0x0F) | 0x80).update(8, (hash[8] & 0x3F) | 0x80)
}

/// The identifier derived from `input`.
pub open spec fn spec_derived_uuid(input: Seq<u8>) -> Seq<u8> {
    uuid_of_hash(sha256(input))
}

/// The identity of a value: the first sixteen bytes of the digest of the
/// property identifier followed by the canonical payload.
pub open spec fn spec_value_id(property_id: Seq<u8>, canonical_payload: Seq<u8>) -> Seq<u8> {
    sha256(property_id + canonical_payload).take(16)
}

/// The identity of a text value: as `spec_value_id`, with the language
/// identifier behind the text, or sixteen zero bytes for the default language.
pub open spec fn spec_text_value_id(property_id: Seq<u8>, text: Seq<u8>, language_id: Option<Seq<u8>>) -> Seq<u8> {
    sha256(
        property_id + text + (match language_id {
            Some(id) => id,
            None => NIL_ID@,
        }),
    ).take(16)
}

/// The identifier of a unique-mode relation.
pub open spec fn spec_unique_relation_id(from_id: Seq<u8>, to_id: Seq<u8>, type_id: Seq<u8>) -> Seq<u8> {
    spec_derived_uuid(from_id + to_id + type_id)
}

/// The first sixteen bytes of a digest.
pub fn id_from_hash(hash: &[u8; 32]) -> (id: Id)
    ensures
        id@ == hash@.take(16),
{
    let mut id: Id = [0u8; 16];
    let mut i: usize = 0;
    while i < 16
        invariant
            i <= 16,
            forall|j: int| 0 <= j < i ==> id@[j] == hash@[j],
        decreases 16 - i,
    {
        id[i] = hash[i];
        i = i + 1;
    }
    proof {
        assert(id@ =~= hash@.take(16));
    }
    id
}

/// Makes a UUIDv8 of a digest: truncates it to sixteen bytes, sets version 8
/// in byte 6 and the RFC 4122 variant in byte 8.
pub fn uuid_from_hash(hash: &[u8; 32]) -> (id: Id)
    ensures
        id@ == uuid_of_hash(hash@),
        id@[6] & 0xF0 == 0x80,
        id@[8] & 0xC0 == 0x80,
{
    let mut id: Id = id_from_hash(hash);
    let b6: u8 = (id[6] & 0x0F) | 0x80;
    let b8: u8 = (id[8] & 0x3F) | 0x80;
    id[6] = b6;
    id[8] = b8;
    proof {
        let x = hash@[6];
        let y = hash@[8];
        assert(((x & 0x0F) | 0x80) & 0xF0 == 0x80) by (bit_vector);
        assert(((y & 0x3F) | 0x80) & 0xC0 == 0x80) by (bit_vector);
        assert(id@ =~= uuid_of_hash(hash@));
    }
    id
}

/// Derives a UUIDv8 from input bytes using SHA-256.
pub fn derived_uuid(input: &[u8]) -> (id: Id)
    ensures
        id@ == spec_derived_uuid(input@),
        id@[6] & 0xF0 == 0x80,
        id@[8] & 0xC0 == 0x80,
{
    let hash = sha256_digest(input);
    uuid_from_hash(&hash)
}

/// Computes the value identity hash for a value that is not text.
pub fn value_id(property_id: &Id, canonical_payload: &[u8]) -> (id: Id)
    ensures
        id@ == spec_value_id(property_id@, canonical_payload@),
{
    let mut input: Vec<u8> = Vec::new();
    input.extend_from_slice(property_id.as_slice());
    input.extend_from_slice(canonical_payload);
    proof {
        assert(input@ =~= property_id@ + canonical_payload@);
    }
    let hash = sha256_digest(input.as_slice());
    id_from_hash(&hash)
}

/// Computes the value identity hash for a text value with its language.
///
/// Without a language the nil identifier stands for the default language.
pub fn text_value_id(property_id: &Id, text: &[u8], language_id: Option<&Id>) -> (id: Id)
    ensures
        id@ == spec_text_value_id(
            property_id@,
            text@,
            match language_id {
                Some(l) => Some(l@),
                None => None,
            },
        ),
{
    let mut input: Vec<u8> = Vec::new();
    input.extend_from_slice(property_id.as_slice());
    input.extend_from_slice(text);
    match language_id {
        Some(l) => {
            input.extend_from_slice(l.as_slice());
            proof {
                assert(input@ =~= property_id@ + text@ + l@);
            }
        },
        None => {
            let nil: Id = NIL_ID;
            input.extend_from_slice(nil.as_slice());
            proof {
                assert(input@ =~= property_id@ + text@ + NIL_ID@);
            }
        },
    }
    let hash = sha256_digest(input.as_slice());
    id_from_hash(&hash)
}

/// Derives a unique-mode relation identifier from the 48 bytes of its
/// source, target and type.
pub fn unique_relation_id(from_id: &Id, to_id: &Id, type_id: &Id) -> (id: Id)
    ensures
        id@ == spec_unique_relation_id(from_id@, to_id@, type_id@),
        id@[6] & 0xF0 == 0x80,
        id@[8] & 0xC0 == 0x80,
{
    let mut input: Vec<u8> = Vec::new();
    input.extend_from_slice(from_id.as_slice());
    input.extend_from_slice(to_id.as_slice());
    input.extend_from_slice(type_id.as_slice());
    proof {
        assert(input@ =~= from_id@ + to_id@ + type_id@);
    }
    derived_uuid(input.as_slice())
}

// ---------------------------------------------------------------------------
// Hexadecimal form
// ---------------------------------------------------------------------------

/// The lowercase hexadecimal digit of a value below sixteen, in ASCII.
pub open spec fn hex_digit_of(n: int) -> u8 {
    if n < 10 {
        (0x30 + n) as u8
    } else {
        (0x57 + n) as u8
    }
}

/// The 32 lowercase hexadecimal digits of an identifier, in ASCII: two for
/// each byte, the high half first.
pub open spec fn hex_bytes(id: Seq<u8>) -> Seq<u8> {
    Seq::new(
        2 * id.len(),
        |i: int|
            if i % 2 == 0 {
                hex_digit_of(id[i / 2] as int / 16)
            } else {
                hex_digit_of(id[i / 2] as int % 16)
            },
    )
}

/// The value of a hexadecimal digit in ASCII, of either case.
pub open spec fn hex_value(c: u8) -> Option<u8> {
    if 0x30 <= c <= 0x39 {
        Some((c - 0x30) as u8)
    } else if 0x61 <= c <= 0x66 {
        Some((c - 0x57) as u8)
    } else if 0x41 <= c <= 0x46 {
        Some((c - 0x37) as u8)
    } else {
        None
    }
}

/// The bytes without the hyphens among them.
pub open spec fn strip_hyphens(b: Seq<u8>) -> Seq<u8>
    decreases b.len(),
{
    if b.len() == 0 {
        Seq::empty()
    } else if b.last() == 0x2D {
        strip_hyphens(b.drop_last())
    } else {
        strip_hyphens(b.drop_last()).push(b.last())
    }
}

/// Every byte is a hexadecimal digit.
pub open spec fn all_hex(b: Seq<u8>) -> bool {
    forall|i: int| 0 <= i < b.len() ==> hex_value(#[trigger] b[i]) is Some
}

/// The identifier that a string in UTF-8 stands for: without its hyphens it
/// must be 32 hexadecimal digits, two for each byte.
pub open spec fn spec_parse_id(b: Seq<u8>) -> Option<Seq<u8>> {
    let digits = strip_hyphens(b);
    if digits.len() == 32 && all_hex(digits) {
        Some(Seq::new(16, |i: int| (16 * hex_value(digits[2 * i])->0 + hex_value(digits[2 * i + 1])->0) as u8))
    } else {
        None
    }
}

/// The lowercase hexadecimal digit of a value below sixteen.
fn hex_digit_byte(n: u8) -> (c: u8)
    requires
        n < 16,
    ensures
        c == hex_digit_of(n as int),
        c < 128,
{
    if n < 10 {
        0x30 + n
    } else {
        0x57 + n
    }
}

/// Sequences of ASCII bytes are well-formed UTF-8 that decodes to the
/// characters with those codes.
pub proof fn lemma_ascii_is_utf8(bytes: Seq<u8>)
    requires
        forall|i: int| 0 <= i < bytes.len() ==> bytes[i] < 128,
    ensures
        vstd::utf8::valid_utf8(bytes),
        vstd::utf8::encode_utf8(vstd::utf8::decode_utf8(bytes)) == bytes,
{
    let chars = Seq::new(bytes.len(), |i: int| bytes[i] as char);
    assert(vstd::utf8::is_ascii_chars(chars));
    vstd::utf8::is_ascii_chars_encode_utf8(chars);
    assert(vstd::utf8::encode_utf8(chars) =~= bytes);
    vstd::utf8::encode_utf8_valid_utf8(chars);
    vstd::utf8::decode_utf8_encode_utf8(bytes);
}

/// Formats an identifier as 32 lowercase hexadecimal digits without hyphens.
#[verifier::rlimit(50)]
pub fn format_id(id: &Id) -> (s: String)
    ensures
        vstd::utf8::encode_utf8(s@) == hex_bytes(id@),
{
    let mut out: Vec<u8> = Vec::new();
    let mut i: usize = 0;
    while i < 16
        invariant
            i <= 16,
            out@.len() == 2 * i,
            forall|j: int| 0 <= j < 2 * i ==> out@[j] == hex_bytes(id@)[j],
        decreases 16 - i,
    {
        let b: u8 = id[i];
        out.push(hex_digit_byte(b / 16));
        out.push(hex_digit_byte(b % 16));
        i = i + 1;
    }
    proof {
        assert(out@ =~= hex_bytes(id@));
        lemma_ascii_is_utf8(out@);
    }
    match crate::codec::primitives::string_from_utf8(out.as_slice()) {
        Some(s) => s,
        None => String::new(),
    }
}

/// The value of a hexadecimal digit, of either case.
pub fn hex_digit_value(c: u8) -> (res: Option<u8>)
    ensures
        res == hex_value(c),
        res is Some ==> res->0 < 16,
{
    if 0x30 <= c && c <= 0x39 {
        Some(c - 0x30)
    } else if 0x61 <= c && c <= 0x66 {
        Some(c - 0x57)
    } else if 0x41 <= c && c <= 0x46 {
        Some(c - 0x37)
    } else {
        None
    }
}

/// Parses an identifier from 32 hexadecimal digits, with or without hyphens
/// among them. Any other length and any other character is refused.
#[verifier::rlimit(50)]
pub fn parse_id(s: &str) -> (res: Option<Id>)
    ensures
        match spec_parse_id(vstd::utf8::encode_utf8(s@)) {
            Some(bytes) => res is Some && res->0@ == bytes,
            None => res is None,
        },
{
    let b = s.as_bytes();
    let mut digits: Vec<u8> = Vec::new();
    let mut i: usize = 0;
    proof {
        assert(b@.take(0) =~= Seq::<u8>::empty());
    }
    while i < b.len()
        invariant
            i <= b@.len(),
            digits@ == strip_hyphens(b@.take(i as int)),
        decreases b.len() - i,
    {
        proof {
            assert(b@.take(i + 1).drop_last() =~= b@.take(i as int));
        }
        if b[i] != 0x2D {
            digits.push(b[i]);
        }
        i = i + 1;
    }
    proof {
        assert(b@.take(b@.len() as int) =~= b@);
    }
    if digits.len() != 32 {
        return None;
    }
    let mut id: Id = [0u8; 16];
    let mut k: usize = 0;
    while k < 16
        invariant
            k <= 16,
            digits@.len() == 32,
            digits@ == strip_hyphens(b@),
            b@ == vstd::utf8::encode_utf8(s@),
            forall|j: int| 0 <= j < 2 * k ==> hex_value(#[trigger] digits@[j]) is Some,
            forall|j: int|
                0 <= j < k ==> id@[j] == (16 * hex_value(digits@[2 * j])->0 + hex_value(digits@[2 * j + 1])->0) as u8,
        decreases 16 - k,
    {
        let hi: u8 = match hex_digit_value(digits[2 * k]) {
            Some(v) => v,
            None => {
                assert(hex_value(digits@[2 * k]) is None);
                return None;
            },
        };
        let lo: u8 = match hex_digit_value(digits[2 * k + 1]) {
            Some(v) => v,
            None => {
                assert(hex_value(digits@[2 * k + 1]) is None);
                return None;
            },
        };
        id[k] = 16 * hi + lo;
        k = k + 1;
    }
    proof {
        assert(id@ =~= spec_parse_id(b@)->0);
    }
    Some(id)
}

/// Parsing the formatted form of an identifier gives the identifier back.
pub proof fn lemma_format_parse_roundtrip(id: Seq<u8>)
    requires
        id.len() == 16,
    ensures
        spec_parse_id(hex_bytes(id)) == Some(id),
{
    let h = hex_bytes(id);
    lemma_strip_no_hyphens(h);
    assert(all_hex(h));
    let parsed = Seq::new(16, |i: int| (16 * hex_value(h[2 * i])->0 + hex_value(h[2 * i + 1])->0) as u8);
    assert forall|i: int| 0 <= i < 16 implies parsed[i] == id[i] by {
        assert(h[2 * i] == hex_digit_of(id[i] as int / 16));
        assert(h[2 * i + 1] == hex_digit_of(id[i] as int % 16));
    }
    assert(parsed =~= id);
}

/// Bytes without a hyphen among them stay as they are.
pub proof fn lemma_strip_no_hyphens(b: Seq<u8>)
    requires
        forall|i: int| 0 <= i < b.len() ==> b[i] != 0x2D,
    ensures
        strip_hyphens(b) == b,
    decreases b.len(),
{
    if b.len() > 0 {
        lemma_strip_no_hyphens(b.drop_last());
        assert(b.drop_last().push(b.last()) =~= b);
    }
}

} // verus!
