//! Identifiers of the cities dataset.
//!
//! The dataset of cities, states and countries has a fixed schema: its
//! properties, types, relation types and languages have the identifiers
//! below, and its entities have identifiers made of a kind prefix and the
//! number of the record.

use vstd::prelude::*;
use vstd::utf8::encode_utf8;
use crate::model::id::Id;
use crate::model::id::hex_value;
use crate::model::id::hex_digit_value;

verus! {

/// Property: name of a place.
pub const PROP_NAME: Id = [0xA1, 0xB2, 0xC3, 0xD4, 0xE5, 0xF6, 0x07, 0x18, 0x29, 0x30, 0x40, 0x50, 0xA1, 0xB2, 0xC3, 0xD4];

/// Property: code of a state or country.
pub const PROP_CODE: Id = [0xA1, 0xB2, 0xC3, 0xD4, 0xE5, 0xF6, 0x07, 0x18, 0x29, 0x30, 0x40, 0x50, 0xA1, 0xB2, 0xC3, 0xD5];

/// Property: name in the native language.
pub const PROP_NATIVE_NAME: Id = [0xA1, 0xB2, 0xC3, 0xD4, 0xE5, 0xF6, 0x07, 0x18, 0x29, 0x30, 0x40, 0x50, 0xA1, 0xB2, 0xC3, 0xD6];

/// Property: population.
pub const PROP_POPULATION: Id = [0xA1, 0xB2, 0xC3, 0xD4, 0xE5, 0xF6, 0x07, 0x18, 0x29, 0x30, 0x40, 0x50, 0xA1, 0xB2, 0xC3, 0xD7];

/// Property: location.
pub const PROP_LOCATION: Id = [0xA1, 0xB2, 0xC3, 0xD4, 0xE5, 0xF6, 0x07, 0x18, 0x29, 0x30, 0x40, 0x50, 0xA1, 0xB2, 0xC3, 0xD8];

/// Property: time zone.
pub const PROP_TIMEZONE: Id = [0xA1, 0xB2, 0xC3, 0xD4, 0xE5, 0xF6, 0x07, 0x18, 0x29, 0x30, 0x40, 0x50, 0xA1, 0xB2, 0xC3, 0xD9];

/// Property: wikidata identifier.
pub const PROP_WIKIDATA_ID: Id = [0xA1, 0xB2, 0xC3, 0xD4, 0xE5, 0xF6, 0x07, 0x18, 0x29, 0x30, 0x40, 0x50, 0xA1, 0xB2, 0xC3, 0xDA];

/// Property: kind of city.
pub const PROP_CITY_TYPE: Id = [0xA1, 0xB2, 0xC3, 0xD4, 0xE5, 0xF6, 0x07, 0x18, 0x29, 0x30, 0x40, 0x50, 0xA1, 0xB2, 0xC3, 0xDB];

/// Type: city.
pub const TYPE_CITY: Id = [0xB1, 0xB2, 0xC3, 0xD4, 0xE5, 0xF6, 0x07, 0x18, 0x29, 0x30, 0x40, 0x50, 0xA1, 0xB2, 0xC3, 0xD4];

/// Type: state.
pub const TYPE_STATE: Id = [0xB1, 0xB2, 0xC3, 0xD4, 0xE5, 0xF6, 0x07, 0x18, 0x29, 0x30, 0x40, 0x50, 0xA1, 0xB2, 0xC3, 0xD5];

/// Type: country.
pub const TYPE_COUNTRY: Id = [0xB1, 0xB2, 0xC3, 0xD4, 0xE5, 0xF6, 0x07, 0x18, 0x29, 0x30, 0x40, 0x50, 0xA1, 0xB2, 0xC3, 0xD6];

/// Relation type: type membership.
pub const REL_TYPES: Id = [0xC1, 0xB2, 0xC3, 0xD4, 0xE5, 0xF6, 0x07, 0x18, 0x29, 0x30, 0x40, 0x50, 0xA1, 0xB2, 0xC3, 0xD4];

/// Relation type: city in state.
pub const REL_IN_STATE: Id = [0xC1, 0xB2, 0xC3, 0xD4, 0xE5, 0xF6, 0x07, 0x18, 0x29, 0x30, 0x40, 0x50, 0xA1, 0xB2, 0xC3, 0xD5];

/// Relation type: place in country.
pub const REL_IN_COUNTRY: Id = [0xC1, 0xB2, 0xC3, 0xD4, 0xE5, 0xF6, 0x07, 0x18, 0x29, 0x30, 0x40, 0x50, 0xA1, 0xB2, 0xC3, 0xD6];

/// Language `br`.
pub const LANG_BRETON: Id = [0xD1, 0xB2, 0xC3, 0xD4, 0xE5, 0xF6, 0x07, 0x18, 0x29, 0x30, 0x40, 0x50, 0xA1, 0xB2, 0xC3, 0xD0];

/// Language `ko`.
pub const LANG_KOREAN: Id = [0xD1, 0xB2, 0xC3, 0xD4, 0xE5, 0xF6, 0x07, 0x18, 0x29, 0x30, 0x40, 0x50, 0xA1, 0xB2, 0xC3, 0xD1];

/// Language `pt-BR`.
pub const LANG_PORTUGUESE_BR: Id = [0xD1, 0xB2, 0xC3, 0xD4, 0xE5, 0xF6, 0x07, 0x18, 0x29, 0x30, 0x40, 0x50, 0xA1, 0xB2, 0xC3, 0xD2];

/// Language `pt`.
pub const LANG_PORTUGUESE: Id = [0xD1, 0xB2, 0xC3, 0xD4, 0xE5, 0xF6, 0x07, 0x18, 0x29, 0x30, 0x40, 0x50, 0xA1, 0xB2, 0xC3, 0xD3];

/// Language `nl`.
pub const LANG_DUTCH: Id = [0xD1, 0xB2, 0xC3, 0xD4, 0xE5, 0xF6, 0x07, 0x18, 0x29, 0x30, 0x40, 0x50, 0xA1, 0xB2, 0xC3, 0xD4];

/// Language `hr`.
pub const LANG_CROATIAN: Id = [0xD1, 0xB2, 0xC3, 0xD4, 0xE5, 0xF6, 0x07, 0x18, 0x29, 0x30, 0x40, 0x50, 0xA1, 0xB2, 0xC3, 0xD5];

/// Language `fa`.
pub const LANG_PERSIAN: Id = [0xD1, 0xB2, 0xC3, 0xD4, 0xE5, 0xF6, 0x07, 0x18, 0x29, 0x30, 0x40, 0x50, 0xA1, 0xB2, 0xC3, 0xD6];

/// Language `de`.
pub const LANG_GERMAN: Id = [0xD1, 0xB2, 0xC3, 0xD4, 0xE5, 0xF6, 0x07, 0x18, 0x29, 0x30, 0x40, 0x50, 0xA1, 0xB2, 0xC3, 0xD7];

/// Language `es`.
pub const LANG_SPANISH: Id = [0xD1, 0xB2, 0xC3, 0xD4, 0xE5, 0xF6, 0x07, 0x18, 0x29, 0x30, 0x40, 0x50, 0xA1, 0xB2, 0xC3, 0xD8];

/// Language `fr`.
pub const LANG_FRENCH: Id = [0xD1, 0xB2, 0xC3, 0xD4, 0xE5, 0xF6, 0x07, 0x18, 0x29, 0x30, 0x40, 0x50, 0xA1, 0xB2, 0xC3, 0xD9];

/// Language `ja`.
pub const LANG_JAPANESE: Id = [0xD1, 0xB2, 0xC3, 0xD4, 0xE5, 0xF6, 0x07, 0x18, 0x29, 0x30, 0x40, 0x50, 0xA1, 0xB2, 0xC3, 0xDA];

/// Language `it`.
pub const LANG_ITALIAN: Id = [0xD1, 0xB2, 0xC3, 0xD4, 0xE5, 0xF6, 0x07, 0x18, 0x29, 0x30, 0x40, 0x50, 0xA1, 0xB2, 0xC3, 0xDB];

/// Language `zh-CN`.
pub const LANG_CHINESE: Id = [0xD1, 0xB2, 0xC3, 0xD4, 0xE5, 0xF6, 0x07, 0x18, 0x29, 0x30, 0x40, 0x50, 0xA1, 0xB2, 0xC3, 0xDC];

/// Language `tr`.
pub const LANG_TURKISH: Id = [0xD1, 0xB2, 0xC3, 0xD4, 0xE5, 0xF6, 0x07, 0x18, 0x29, 0x30, 0x40, 0x50, 0xA1, 0xB2, 0xC3, 0xDD];

/// Language `ru`.
pub const LANG_RUSSIAN: Id = [0xD1, 0xB2, 0xC3, 0xD4, 0xE5, 0xF6, 0x07, 0x18, 0x29, 0x30, 0x40, 0x50, 0xA1, 0xB2, 0xC3, 0xDE];

/// Language `uk`.
pub const LANG_UKRAINIAN: Id = [0xD1, 0xB2, 0xC3, 0xD4, 0xE5, 0xF6, 0x07, 0x18, 0x29, 0x30, 0x40, 0x50, 0xA1, 0xB2, 0xC3, 0xDF];

/// Language `pl`.
pub const LANG_POLISH: Id = [0xD1, 0xB2, 0xC3, 0xD4, 0xE5, 0xF6, 0x07, 0x18, 0x29, 0x30, 0x40, 0x50, 0xA1, 0xB2, 0xC3, 0xE0];

/// Language `ar`.
pub const LANG_ARABIC: Id = [0xD1, 0xB2, 0xC3, 0xD4, 0xE5, 0xF6, 0x07, 0x18, 0x29, 0x30, 0x40, 0x50, 0xA1, 0xB2, 0xC3, 0xE1];

/// Language `hi`.
pub const LANG_HINDI: Id = [0xD1, 0xB2, 0xC3, 0xD4, 0xE5, 0xF6, 0x07, 0x18, 0x29, 0x30, 0x40, 0x50, 0xA1, 0xB2, 0xC3, 0xE2];

/// Prefix of city identifiers.
pub const PREFIX_CITY: u8 = 0x01;

/// Prefix of state identifiers.
pub const PREFIX_STATE: u8 = 0x02;

/// Prefix of country identifiers.
pub const PREFIX_COUNTRY: u8 = 0x03;

/// The value of a hexadecimal digit. The byte must be one.
pub fn hex_digit(c: u8) -> (v: u8)
    requires
        hex_value(c) is Some,
    ensures
        v == hex_value(c)->0,
        v < 16,
{
    match hex_digit_value(c) {
        Some(v) => v,
        None => 0,
    }
}

/// The sixteen bytes that the first 32 hexadecimal digits stand for.
pub open spec fn spec_hex(digits: Seq<u8>) -> Seq<u8> {
    Seq::new(16, |i: int| (16 * hex_value(digits[2 * i])->0 + hex_value(digits[2 * i + 1])->0) as u8)
}

/// Reads an identifier from a string that starts with 32 hexadecimal digits.
pub fn hex(s: &str) -> (id: Id)
    requires
        encode_utf8(s@).len() >= 32,
        forall|i: int| 0 <= i < 32 ==> hex_value(#[trigger] encode_utf8(s@)[i]) is Some,
    ensures
        id@ == spec_hex(encode_utf8(s@)),
{
    let bytes = s.as_bytes();
    let mut result: Id = [0u8; 16];
    let mut i: usize = 0;
    while i < 16
        invariant
            i <= 16,
            bytes@ == encode_utf8(s@),
            bytes@.len() >= 32,
            forall|k: int| 0 <= k < 32 ==> hex_value(#[trigger] bytes@[k]) is Some,
            forall|j: int| 0 <= j < i ==> result@[j] == spec_hex(bytes@)[j],
        decreases 16 - i,
    {
        let hi: u8 = hex_digit(bytes[i * 2]);
        let lo: u8 = hex_digit(bytes[i * 2 + 1]);
        result[i] = 16 * hi + lo;
        i = i + 1;
    }
    proof {
        assert(result@ =~= spec_hex(bytes@));
    }
    result
}

/// Tells whether two strings are equal.
fn same_text(a: &str, b: &str) -> (res: bool)
    ensures
        res == (a@ == b@),
{
    let x = a.as_bytes();
    let y = b.as_bytes();
    proof {
        vstd::utf8::encode_utf8_decode_utf8(a@);
        vstd::utf8::encode_utf8_decode_utf8(b@);
    }
    if x.len() != y.len() {
        return false;
    }
    let mut i: usize = 0;
    while i < x.len()
        invariant
            i <= x@.len(),
            x@.len() == y@.len(),
            x@ == encode_utf8(a@),
            y@ == encode_utf8(b@),
            forall|j: int| 0 <= j < i ==> x@[j] == y@[j],
        decreases x.len() - i,
    {
        if x[i] != y[i] {
            return false;
        }
        i = i + 1;
    }
    proof {
        assert(x@ =~= y@);
    }
    true
}

/// The identifier of the language with the given code, for the languages
/// of the dataset.
pub open spec fn spec_from_code(code: Seq<char>) -> Option<Id> {
    if code == "br"@ {
        Some(LANG_BRETON)
    } else if code == "ko"@ {
        Some(LANG_KOREAN)
    } else if code == "pt-BR"@ {
        Some(LANG_PORTUGUESE_BR)
    } else if code == "pt"@ {
        Some(LANG_PORTUGUESE)
    } else if code == "nl"@ {
        Some(LANG_DUTCH)
    } else if code == "hr"@ {
        Some(LANG_CROATIAN)
    } else if code == "fa"@ {
        Some(LANG_PERSIAN)
    } else if code == "de"@ {
        Some(LANG_GERMAN)
    } else if code == "es"@ {
        Some(LANG_SPANISH)
    } else if code == "fr"@ {
        Some(LANG_FRENCH)
    } else if code == "ja"@ {
        Some(LANG_JAPANESE)
    } else if code == "it"@ {
        Some(LANG_ITALIAN)
    } else if code == "zh-CN"@ {
        Some(LANG_CHINESE)
    } else if code == "tr"@ {
        Some(LANG_TURKISH)
    } else if code == "ru"@ {
        Some(LANG_RUSSIAN)
    } else if code == "uk"@ {
        Some(LANG_UKRAINIAN)
    } else if code == "pl"@ {
        Some(LANG_POLISH)
    } else if code == "ar"@ {
        Some(LANG_ARABIC)
    } else if code == "hi"@ {
        Some(LANG_HINDI)
    } else {
        None
    }
}

/// Returns the identifier of the language with the given code, for the
/// languages of the dataset.
pub fn from_code(code: &str) -> (res: Option<Id>)
    ensures
        res == spec_from_code(code@),
{
    if same_text(code, "br") {
        Some(LANG_BRETON)
    } else if same_text(code, "ko") {
        Some(LANG_KOREAN)
    } else if same_text(code, "pt-BR") {
        Some(LANG_PORTUGUESE_BR)
    } else if same_text(code, "pt") {
        Some(LANG_PORTUGUESE)
    } else if same_text(code, "nl") {
        Some(LANG_DUTCH)
    } else if same_text(code, "hr") {
        Some(LANG_CROATIAN)
    } else if same_text(code, "fa") {
        Some(LANG_PERSIAN)
    } else if same_text(code, "de") {
        Some(LANG_GERMAN)
    } else if same_text(code, "es") {
        Some(LANG_SPANISH)
    } else if same_text(code, "fr") {
        Some(LANG_FRENCH)
    } else if same_text(code, "ja") {
        Some(LANG_JAPANESE)
    } else if same_text(code, "it") {
        Some(LANG_ITALIAN)
    } else if same_text(code, "zh-CN") {
        Some(LANG_CHINESE)
    } else if same_text(code, "tr") {
        Some(LANG_TURKISH)
    } else if same_text(code, "ru") {
        Some(LANG_RUSSIAN)
    } else if same_text(code, "uk") {
        Some(LANG_UKRAINIAN)
    } else if same_text(code, "pl") {
        Some(LANG_POLISH)
    } else if same_text(code, "ar") {
        Some(LANG_ARABIC)
    } else if same_text(code, "hi") {
        Some(LANG_HINDI)
    } else {
        None
    }
}

/// The four big-endian bytes of a 32-bit number.
pub open spec fn be32(id: u32) -> Seq<u8> {
    seq![(id / 0x100_0000) as u8, (id / 0x1_0000 % 0x100) as u8, (id / 0x100 % 0x100) as u8, (id % 0x100) as u8]
}

/// The identifier of an entity of the dataset: the kind prefix in byte 0,
/// the version and variant marks in bytes 6 and 8, and the number of the
/// record in bytes 12 to 15, big-endian.
pub open spec fn entity_id_bytes(prefix: u8, id: u32) -> Seq<u8> {
    seq![prefix, 0u8, 0u8, 0u8, 0u8, 0u8, 0x80u8, 0u8, 0x80u8, 0u8, 0u8, 0u8] + be32(id)
}

/// The identifier of a relation of the dataset: the kind prefix in byte 0,
/// the kind of relation in byte 1, the index in bytes 2 and 3, and the
/// number of the record in bytes 12 to 15, both big-endian.
pub open spec fn rel_entity_id_bytes(prefix: u8, entity_id: u32, rel_type: u8, index: u16) -> Seq<u8> {
    seq![prefix, rel_type, (index / 0x100) as u8, (index % 0x100) as u8, 0u8, 0u8, 0u8, 0u8, 0u8, 0u8, 0u8, 0u8]
        + be32(entity_id)
}

/// Writes the four big-endian bytes of `id` behind `out`.
fn push_be32(out: &mut Vec<u8>, id: u32)
    ensures
        final(out)@ == old(out)@ + be32(id),
{
    out.push((id / 0x100_0000) as u8);
    out.push((id / 0x1_0000 % 0x100) as u8);
    out.push((id / 0x100 % 0x100) as u8);
    out.push((id % 0x100) as u8);
    proof {
        assert(out@ =~= old(out)@ + be32(id));
    }
}

/// Makes the identifier of an entity of the dataset.
pub fn make_entity_id(prefix: u8, id: u32) -> (uuid: Vec<u8>)
    ensures
        uuid@ == entity_id_bytes(prefix, id),
        uuid@.len() == 16,
{
    let mut uuid: Vec<u8> = Vec::new();
    uuid.push(prefix);
    let mut i: usize = 1;
    while i < 12
        invariant
            1 <= i <= 12,
            uuid@.len() == i,
            uuid@[0] == prefix,
            forall|j: int| 1 <= j < i ==> uuid@[j] == (if j == 6 || j == 8 {
                0x80u8
            } else {
                0u8
            }),
        decreases 12 - i,
    {
        uuid.push(if i == 6 || i == 8 {
            0x80
        } else {
            0
        });
        i = i + 1;
    }
    proof {
        assert(uuid@ =~= seq![prefix, 0u8, 0u8, 0u8, 0u8, 0u8, 0x80u8, 0u8, 0x80u8, 0u8, 0u8, 0u8]);
    }
    push_be32(&mut uuid, id);
    uuid
}

/// Makes the identifier of a relation of the dataset.
pub fn make_rel_entity_id(prefix: u8, entity_id: u32, rel_type: u8, index: u16) -> (result: Vec<u8>)
    ensures
        result@ == rel_entity_id_bytes(prefix, entity_id, rel_type, index),
        result@.len() == 16,
{
    let mut result: Vec<u8> = Vec::new();
    result.push(prefix);
    result.push(rel_type);
    result.push((index / 0x100) as u8);
    result.push((index % 0x100) as u8);
    let mut i: usize = 4;
    while i < 12
        invariant
            4 <= i <= 12,
            result@.len() == i,
            result@[0] == prefix,
            result@[1] == rel_type,
            result@[2] == (index / 0x100) as u8,
            result@[3] == (index % 0x100) as u8,
            forall|j: int| 4 <= j < i ==> result@[j] == 0u8,
        decreases 12 - i,
    {
        result.push(0);
        i = i + 1;
    }
    proof {
        assert(result@ =~= seq![
            prefix,
            rel_type,
            (index / 0x100) as u8,
            (index % 0x100) as u8,
            0u8,
            0u8,
            0u8,
            0u8,
            0u8,
            0u8,
            0u8,
            0u8,
        ]);
    }
    push_be32(&mut result, entity_id);
    result
}

} // verus!
