use icecc_mon::codec::{decode_string, decode_u32, encode_string, encode_u32, CodecError, Cursor};

#[test]
fn roundtrip_u32() {
    let mut buf = Vec::new();
    encode_u32(&mut buf, 0x12345678);
    let mut cursor = Cursor::new(buf.as_slice());
    assert_eq!(decode_u32(&mut cursor).unwrap(), 0x12345678);
}

#[test]
fn roundtrip_string() {
    let mut buf = Vec::new();
    encode_string(&mut buf, "hello");
    let mut cursor = Cursor::new(buf.as_slice());
    assert_eq!(decode_string(&mut cursor).unwrap(), "hello");
}

#[test]
fn roundtrip_empty_string() {
    let mut buf = Vec::new();
    encode_string(&mut buf, "");
    let mut cursor = Cursor::new(buf.as_slice());
    assert_eq!(decode_string(&mut cursor).unwrap(), "");
}

#[test]
fn string_wire_format() {
    let mut buf = Vec::new();
    encode_string(&mut buf, "hi");
    assert_eq!(buf, vec![0, 0, 0, 3, b'h', b'i', 0]);
}

#[test]
fn u32_wire_format_is_big_endian() {
    let mut buf = vec![9u8];
    encode_u32(&mut buf, 0x0102_0304);
    assert_eq!(buf, vec![9, 1, 2, 3, 4]);
}

#[test]
fn decode_u32_advances_cursor() {
    let data = [0u8, 0, 0, 7, 0, 0, 1, 0];
    let mut cursor = Cursor::new(&data);
    assert_eq!(decode_u32(&mut cursor).unwrap(), 7);
    assert_eq!(cursor.position(), 4);
    assert_eq!(decode_u32(&mut cursor).unwrap(), 256);
    assert_eq!(cursor.position(), 8);
}

#[test]
fn decode_u32_short_input_is_eof() {
    let data = [1u8, 2, 3];
    let mut cursor = Cursor::new(&data);
    assert_eq!(decode_u32(&mut cursor), Err(CodecError::UnexpectedEofU32));
    assert_eq!(cursor.position(), 0);
}

#[test]
fn decode_string_zero_length_is_empty() {
    let data = [0u8, 0, 0, 0, 0xff];
    let mut cursor = Cursor::new(&data);
    assert_eq!(decode_string(&mut cursor).unwrap(), "");
    assert_eq!(cursor.position(), 4);
}

#[test]
fn decode_string_past_end_is_eof() {
    let data = [0u8, 0, 0, 9, b'a', b'b'];
    let mut cursor = Cursor::new(&data);
    assert_eq!(decode_string(&mut cursor), Err(CodecError::UnexpectedEofString { len: 9 }));
    assert_eq!(cursor.position(), 4);
}

#[test]
fn decode_string_invalid_utf8() {
    let data = [0u8, 0, 0, 3, 0xff, 0xfe, 0];
    let mut cursor = Cursor::new(&data);
    assert_eq!(decode_string(&mut cursor), Err(CodecError::InvalidUtf8));
}

#[test]
fn decode_string_skips_terminator_unchecked() {
    // The terminator byte is not looked at.
    let data = [0u8, 0, 0, 3, b'o', b'k', b'!', 5];
    let mut cursor = Cursor::new(&data);
    assert_eq!(decode_string(&mut cursor).unwrap(), "ok");
    assert_eq!(cursor.position(), 7);
}

#[test]
fn roundtrip_multibyte_string() {
    let mut buf = Vec::new();
    encode_string(&mut buf, "grüße");
    assert_eq!(&buf[0..4], &[0, 0, 0, 8]);
    let mut cursor = Cursor::new(buf.as_slice());
    assert_eq!(decode_string(&mut cursor).unwrap(), "grüße");
}
