use grc_20::model::id::{hex_digit_value, id_from_hash, uuid_from_hash};
use grc_20::model::{derived_uuid, format_id, parse_id, text_value_id, unique_relation_id, value_id, NIL_ID};

#[test]
fn test_derived_uuid_version_and_variant() {
    let id = derived_uuid(b"test");
    assert_eq!(id[6] & 0xF0, 0x80);
    assert_eq!(id[8] & 0xC0, 0x80);
}

#[test]
fn test_derived_uuid_deterministic() {
    let id1 = derived_uuid(b"hello world");
    let id2 = derived_uuid(b"hello world");
    assert_eq!(id1, id2);

    let id3 = derived_uuid(b"different");
    assert_ne!(id1, id3);
}

#[test]
fn test_format_parse_roundtrip() {
    let id = derived_uuid(b"test");
    let formatted = format_id(&id);
    let parsed = parse_id(&formatted).unwrap();
    assert_eq!(id, parsed);
}

#[test]
fn test_parse_with_hyphens() {
    let hex = "550e8400e29b41d4a716446655440000";
    let with_hyphens = "550e8400-e29b-41d4-a716-446655440000";

    let id1 = parse_id(hex).unwrap();
    let id2 = parse_id(with_hyphens).unwrap();
    assert_eq!(id1, id2);
}

#[test]
fn test_unique_relation_id() {
    let from = [1u8; 16];
    let to = [2u8; 16];
    let type_id = [3u8; 16];

    let id1 = unique_relation_id(&from, &to, &type_id);
    let id2 = unique_relation_id(&from, &to, &type_id);
    assert_eq!(id1, id2);

    let id3 = unique_relation_id(&to, &from, &type_id);
    assert_ne!(id1, id3);
}

#[test]
fn derived_uuid_of_test_has_known_bytes() {
    assert_eq!(
        derived_uuid(b"test"),
        [159, 134, 208, 129, 136, 76, 141, 101, 154, 47, 234, 160, 197, 90, 208, 21]
    );
    assert_ne!(&derived_uuid(b"test")[0..4], b"test");
}

#[test]
fn value_ids_have_known_bytes() {
    let property = [1u8; 16];
    assert_eq!(format_id(&value_id(&property, b"abc")), "9d9e349f421bcb4deffcd11890f31c3c");
    assert_eq!(format_id(&text_value_id(&property, b"abc", None)), "237c0fb9984f71e14a3e3d54dbafe74e");
    assert_eq!(
        format_id(&text_value_id(&property, b"abc", Some(&[9u8; 16]))),
        "c4b92ffa96225107d41de395e6b6fcaf"
    );
    assert_eq!(text_value_id(&property, b"abc", None), text_value_id(&property, b"abc", Some(&NIL_ID)));
    assert_eq!(
        format_id(&unique_relation_id(&[1u8; 16], &[2u8; 16], &[3u8; 16])),
        "1fa24c84c10f8ab591a82f72600b82eb"
    );
}

#[test]
fn uuid_from_hash_forces_version_and_variant() {
    let mut hash = [0xFFu8; 32];
    hash[0] = 1;
    let id = uuid_from_hash(&hash);
    assert_eq!(id, [1, 255, 255, 255, 255, 255, 0x8F, 255, 0xBF, 255, 255, 255, 255, 255, 255, 255]);
    let id = uuid_from_hash(&[0u8; 32]);
    assert_eq!(id[6], 0x80);
    assert_eq!(id[8], 0x80);
    let mut hash = [0u8; 32];
    for (i, b) in hash.iter_mut().enumerate() {
        *b = i as u8;
    }
    assert_eq!(id_from_hash(&hash), [0, 1, 2, 3, 4, 5, 6, 7, 8, 9, 10, 11, 12, 13, 14, 15]);
}

#[test]
fn format_id_is_lowercase_hex() {
    let id = [0x00, 0x01, 0x0A, 0x10, 0x7F, 0x80, 0xAB, 0xCD, 0xEF, 0xFF, 0x12, 0x34, 0x56, 0x78, 0x9A, 0xBC];
    assert_eq!(format_id(&id), "00010a107f80abcdefff123456789abc");
    assert_eq!(format_id(&NIL_ID), "00000000000000000000000000000000");
}

#[test]
fn parse_id_accepts_either_case_and_hyphens_anywhere() {
    let id = [0x00, 0x01, 0x0A, 0x10, 0x7F, 0x80, 0xAB, 0xCD, 0xEF, 0xFF, 0x12, 0x34, 0x56, 0x78, 0x9A, 0xBC];
    assert_eq!(parse_id("00010A107F80ABCDEFFF123456789ABC"), Some(id));
    assert_eq!(parse_id("-0-0010a107f80abcdefff123456789ab-c-"), Some(id));
    assert_eq!(parse_id("550e8400e29b41d4a716446655440000").unwrap()[0], 0x55);
}

#[test]
fn parse_id_refuses_other_lengths_and_characters() {
    assert_eq!(parse_id(""), None);
    assert_eq!(parse_id("00010a107f80abcdefff123456789ab"), None);
    assert_eq!(parse_id("00010a107f80abcdefff123456789abcd"), None);
    assert_eq!(parse_id("00010a107f80abcdefff123456789abg"), None);
    assert_eq!(parse_id("+0010a107f80abcdefff123456789abc"), None);
    assert_eq!(parse_id("0001 a107f80abcdefff123456789abc"), None);
    assert_eq!(hex_digit_value(b'f'), Some(15));
    assert_eq!(hex_digit_value(b'F'), Some(15));
    assert_eq!(hex_digit_value(b'9'), Some(9));
    assert_eq!(hex_digit_value(b'g'), None);
}
