use grc_20::cities::{
    from_code, hex, hex_digit, make_entity_id, make_rel_entity_id, LANG_BRETON, LANG_CHINESE, LANG_HINDI,
    LANG_PORTUGUESE, LANG_PORTUGUESE_BR, PREFIX_CITY, PROP_NAME, REL_IN_COUNTRY, TYPE_CITY,
};

#[test]
fn hex_reads_identifiers() {
    assert_eq!(hex("a1b2c3d4e5f6071829304050a1b2c3d4"), PROP_NAME);
    assert_eq!(hex("B1B2C3D4E5F6071829304050A1B2C3D4"), TYPE_CITY);
    assert_eq!(hex("c1b2c3d4e5f6071829304050a1b2c3d6"), REL_IN_COUNTRY);
    assert_eq!(hex_digit(b'0'), 0);
    assert_eq!(hex_digit(b'a'), 10);
    assert_eq!(hex_digit(b'F'), 15);
}

#[test]
fn language_codes_have_their_identifiers() {
    assert_eq!(from_code("br"), Some(LANG_BRETON));
    assert_eq!(from_code("pt"), Some(LANG_PORTUGUESE));
    assert_eq!(from_code("pt-BR"), Some(LANG_PORTUGUESE_BR));
    assert_eq!(from_code("zh-CN"), Some(LANG_CHINESE));
    assert_eq!(from_code("hi"), Some(LANG_HINDI));
    assert_eq!(from_code("hi").unwrap(), hex("d1b2c3d4e5f6071829304050a1b2c3e2"));
    assert_eq!(from_code("en"), None);
    assert_eq!(from_code(""), None);
    assert_eq!(from_code("p"), None);
    assert_eq!(from_code("pt-"), None);
}

#[test]
fn entity_identifiers_have_exact_bytes() {
    assert_eq!(
        make_entity_id(PREFIX_CITY, 0x01020304),
        vec![1, 0, 0, 0, 0, 0, 0x80, 0, 0x80, 0, 0, 0, 1, 2, 3, 4]
    );
    assert_eq!(make_entity_id(0xFF, 1), vec![0xFF, 0, 0, 0, 0, 0, 0x80, 0, 0x80, 0, 0, 0, 0, 0, 0, 1]);
    assert_eq!(
        make_rel_entity_id(2, u32::MAX, 1, 0x0A0B),
        vec![2, 1, 0x0A, 0x0B, 0, 0, 0, 0, 0, 0, 0, 0, 255, 255, 255, 255]
    );
}
