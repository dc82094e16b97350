use grc_20::codec::primitives::{Reader, Writer};
use grc_20::error::DecodeError;

fn varint(v: u64) -> Vec<u8> {
    let mut w = Writer::new();
    w.write_varint(v);
    w.into_bytes()
}

fn signed(v: i64) -> Vec<u8> {
    let mut w = Writer::new();
    w.write_signed_varint(v);
    w.into_bytes()
}

#[test]
fn varints_have_exact_bytes() {
    assert_eq!(varint(0), vec![0]);
    assert_eq!(varint(127), vec![127]);
    assert_eq!(varint(128), vec![128, 1]);
    assert_eq!(varint(300), vec![172, 2]);
    assert_eq!(varint(u64::MAX), vec![255, 255, 255, 255, 255, 255, 255, 255, 255, 1]);
    assert_eq!(signed(0), vec![0]);
    assert_eq!(signed(-1), vec![1]);
    assert_eq!(signed(1), vec![2]);
    assert_eq!(signed(-2), vec![3]);
    assert_eq!(signed(i64::MAX), vec![254, 255, 255, 255, 255, 255, 255, 255, 255, 1]);
    assert_eq!(signed(i64::MIN), vec![255, 255, 255, 255, 255, 255, 255, 255, 255, 1]);
}

#[test]
fn varints_round_trip() {
    for v in [0u64, 1, 127, 128, 16383, 16384, 1 << 32, (1 << 63) - 1, 1 << 63, u64::MAX] {
        let bytes = varint(v);
        let mut r = Reader::new(&bytes);
        assert_eq!(r.read_varint("v"), Ok(v));
        assert_eq!(r.remaining_len(), 0);
    }
    for v in [0i64, 1, -1, 63, -64, 64, -65, i64::MAX, i64::MIN] {
        let bytes = signed(v);
        let mut r = Reader::new(&bytes);
        assert_eq!(r.read_signed_varint("v"), Ok(v));
    }
}

#[test]
fn zigzag_is_the_shift_and_xor_formula() {
    for n in [0i64, 1, -1, 2, -2, 1234567890, -1234567890, i64::MAX, i64::MIN] {
        let formula = ((n << 1) ^ (n >> 63)) as u64;
        assert_eq!(signed(n), varint(formula));
        let back = ((formula >> 1) as i64) ^ -((formula & 1) as i64);
        assert_eq!(back, n);
    }
}

#[test]
fn overlong_varints_are_refused() {
    let mut r = Reader::new(&[255, 255, 255, 255, 255, 255, 255, 255, 255, 2]);
    assert_eq!(r.read_varint("v"), Err(DecodeError::VarintTooLong));
    let mut r = Reader::new(&[128, 128, 128, 128, 128, 128, 128, 128, 128, 128, 1]);
    assert_eq!(r.read_varint("v"), Err(DecodeError::VarintTooLong));
    let mut r = Reader::new(&[128, 128, 128, 128, 128, 128, 128, 128, 128, 129]);
    assert_eq!(r.read_varint("v"), Err(DecodeError::VarintTooLong));
    let mut r = Reader::new(&[128, 128]);
    assert_eq!(r.read_varint("field"), Err(DecodeError::UnexpectedEof { context: "field" }));
    // padded with zero groups: accepted
    let mut r = Reader::new(&[129, 128, 0]);
    assert_eq!(r.read_varint("v"), Ok(1));
}

#[test]
fn reader_reads_in_order() {
    let data = [7u8, 1, 2, 3, 4, 5, 6, 7, 8, 9];
    let mut r = Reader::new(&data);
    assert_eq!(r.read_byte("b"), Ok(7));
    assert_eq!(r.read_u64_le("f"), Ok(0x0807060504030201));
    assert_eq!(r.remaining(), &[9]);
    assert_eq!(r.read_bytes(2, "tail"), Err(DecodeError::UnexpectedEof { context: "tail" }));
    assert_eq!(r.read_bytes(1, "tail"), Ok(&[9u8][..]));
    assert_eq!(r.read_byte("end"), Err(DecodeError::UnexpectedEof { context: "end" }));
    assert_eq!(r.read_u64_le("f"), Err(DecodeError::UnexpectedEof { context: "f" }));
}

#[test]
fn strings_and_bytes_are_length_prefixed() {
    let mut w = Writer::with_capacity(16);
    w.write_string("h\u{e9}");
    w.write_bytes_prefixed(&[1, 2]);
    w.write_u64_le(0x0102030405060708);
    assert_eq!(w.len(), 15);
    assert_eq!(w.as_bytes(), &[3, b'h', 0xC3, 0xA9, 2, 1, 2, 8, 7, 6, 5, 4, 3, 2, 1]);
    let bytes = w.into_bytes();
    let mut r = Reader::new(&bytes);
    assert_eq!(r.read_string(10, "s"), Ok("h\u{e9}".to_string()));
    assert_eq!(r.read_prefixed(10, "b"), Ok(&[1u8, 2][..]));
    let mut r = Reader::new(&bytes);
    assert_eq!(r.read_string(2, "s"), Err(DecodeError::LengthExceedsLimit { field: "s", len: 3, max: 2 }));
    let mut r = Reader::new(&[2, 0xFF, 0xFE]);
    assert_eq!(r.read_string(10, "s"), Err(DecodeError::MalformedEncoding { context: "s" }));
    let mut r = Reader::new(&[4, b'a']);
    assert_eq!(r.read_string(10, "s"), Err(DecodeError::UnexpectedEof { context: "s" }));
}

#[test]
fn ids_and_id_vectors() {
    let mut w = Writer::new();
    w.write_id(&[5u8; 16]);
    w.write_id_vec(&vec![[1u8; 16], [2u8; 16]]);
    let bytes = w.into_bytes();
    assert_eq!(bytes.len(), 16 + 1 + 32);
    assert_eq!(bytes[16], 2);
    let mut r = Reader::new(&bytes);
    assert_eq!(r.read_id("id"), Ok([5u8; 16]));
    assert_eq!(r.read_id_vec(2, "ids"), Ok(vec![[1u8; 16], [2u8; 16]]));
    let mut r = Reader::new(&bytes[16..]);
    assert_eq!(r.read_id_vec(1, "ids"), Err(DecodeError::LengthExceedsLimit { field: "ids", len: 2, max: 1 }));
    let mut r = Reader::new(&bytes[16..40]);
    assert_eq!(r.read_id_vec(2, "ids"), Err(DecodeError::UnexpectedEof { context: "ids" }));
    let mut r = Reader::new(&[0u8; 15]);
    assert_eq!(r.read_id("id"), Err(DecodeError::UnexpectedEof { context: "id" }));
}
