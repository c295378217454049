use ox::disassemble::{DataFault, DisassemblyError};
use ox::io_utils::{
    bytes_to_float_bits, bytes_to_int, bytes_to_uint, int_to_bytes, uint_to_bytes,
};
use ox::text::{
    parse_integer, push_bytes, push_dec_digits, push_decimal, push_hex, push_hex_digits,
    push_hex_fixed, push_hex_padded, push_spaces, starts_with,
};

#[test]
fn unsigned_integers_are_big_endian() {
    assert_eq!(bytes_to_uint(&[0x7F]), Ok(0x7F));
    assert_eq!(bytes_to_uint(&[0x12, 0x34]), Ok(0x1234));
    assert_eq!(bytes_to_uint(&[0x12, 0x34, 0x56, 0x78]), Ok(0x12345678));
    assert_eq!(bytes_to_uint(&[0xFF, 0xFF, 0xFF, 0xFF]), Ok(0xFFFF_FFFF));
    assert_eq!(
        bytes_to_uint(&[1, 2, 3]),
        Err(DisassemblyError::DataError(DataFault::UnsignedSize(3)))
    );
    assert_eq!(
        bytes_to_uint(&[]),
        Err(DisassemblyError::DataError(DataFault::UnsignedSize(0)))
    );
}

#[test]
fn signed_integers_are_twos_complement() {
    assert_eq!(bytes_to_int(&[0x12, 0x34]), Ok(0x1234));
    assert_eq!(bytes_to_int(&[0xFF, 0xFE]), Ok(-2));
    assert_eq!(bytes_to_int(&[0x80, 0x00]), Ok(-32768));
    assert_eq!(bytes_to_int(&[0x00, 0x00, 0x00, 0x2A]), Ok(42));
    assert_eq!(bytes_to_int(&[0xFF, 0xFF, 0xFF, 0xF8]), Ok(-8));
    assert_eq!(bytes_to_int(&[0x80, 0x00, 0x00, 0x00]), Ok(i32::MIN));
    assert_eq!(
        bytes_to_int(&[1]),
        Err(DisassemblyError::DataError(DataFault::SignedSize(1)))
    );
}

#[test]
fn float_bits_take_four_bytes() {
    assert_eq!(bytes_to_float_bits(&[0x3F, 0xC0, 0x00, 0x00]), Ok(0x3FC0_0000));
    assert_eq!(
        bytes_to_float_bits(&[0x3F, 0xC0]),
        Err(DisassemblyError::DataError(DataFault::FloatSize(2)))
    );
}

#[test]
fn integers_to_bytes() {
    assert_eq!(uint_to_bytes(0x2A, 1), Some(vec![0x2A]));
    assert_eq!(uint_to_bytes(0x1234, 2), Some(vec![0x12, 0x34]));
    assert_eq!(uint_to_bytes(0x12345678, 4), Some(vec![0x12, 0x34, 0x56, 0x78]));
    assert_eq!(uint_to_bytes(0x100, 1), None);
    assert_eq!(uint_to_bytes(0x1_0000, 2), None);
    assert_eq!(uint_to_bytes(1, 3), None);
    assert_eq!(int_to_bytes(-2, 2), Some(vec![0xFF, 0xFE]));
    assert_eq!(int_to_bytes(-8, 4), Some(vec![0xFF, 0xFF, 0xFF, 0xF8]));
    assert_eq!(int_to_bytes(0x7FFF, 2), Some(vec![0x7F, 0xFF]));
    assert_eq!(int_to_bytes(0x8000, 2), None);
    assert_eq!(int_to_bytes(-0x8001, 2), None);
    assert_eq!(int_to_bytes(1, 1), None);
}

#[test]
fn bytes_and_back() {
    for v in [0u32, 1, 0xFF, 0x100, 0xFFFF, 0x1_0000, 0xDEAD_BEEF] {
        let b = uint_to_bytes(v, 4).unwrap();
        assert_eq!(bytes_to_uint(&b), Ok(v));
    }
    for v in [0i32, -1, 1, i32::MIN, i32::MAX, -32768, 32767] {
        let b = int_to_bytes(v, 4).unwrap();
        assert_eq!(bytes_to_int(&b), Ok(v));
    }
}

#[test]
fn numbers_as_text() {
    let mut out = Vec::new();
    push_hex(&mut out, 0);
    assert_eq!(out, b"0x0");
    out.clear();
    push_hex(&mut out, 0x1F);
    assert_eq!(out, b"0x1F");
    out.clear();
    push_hex_padded(&mut out, 0x0D, 8);
    assert_eq!(out, b"0x0000000D");
    out.clear();
    push_hex_padded(&mut out, 0x3A, 2);
    assert_eq!(out, b"0x3A");
    out.clear();
    push_hex_digits(&mut out, 0xABCDEF);
    assert_eq!(out, b"ABCDEF");
    out.clear();
    push_hex_fixed(&mut out, 0x12345, 4);
    assert_eq!(out, b"2345");
    out.clear();
    push_dec_digits(&mut out, 4294967295);
    assert_eq!(out, b"4294967295");
    out.clear();
    push_decimal(&mut out, -2147483648);
    assert_eq!(out, b"-2147483648");
    out.clear();
    push_decimal(&mut out, 0);
    push_spaces(&mut out, 3);
    push_bytes(&mut out, b"ab");
    assert_eq!(out, b"0   ab");
}

#[test]
fn text_as_numbers() {
    assert_eq!(parse_integer(b"42", 10, 0, 255), Some(42));
    assert_eq!(parse_integer(b"+42", 10, 0, 255), Some(42));
    assert_eq!(parse_integer(b"0042", 10, 0, 255), Some(42));
    assert_eq!(parse_integer(b"256", 10, 0, 255), None);
    assert_eq!(parse_integer(b"-1", 10, 0, 255), None);
    assert_eq!(parse_integer(b"", 10, 0, 255), None);
    assert_eq!(parse_integer(b"+", 10, 0, 255), None);
    assert_eq!(parse_integer(b"-", 10, -128, 127), None);
    assert_eq!(parse_integer(b"4 2", 10, 0, 255), None);
    assert_eq!(parse_integer(b"-128", 10, -128, 127), Some(-128));
    assert_eq!(parse_integer(b"-129", 10, -128, 127), None);
    assert_eq!(parse_integer(b"128", 10, -128, 127), None);
    assert_eq!(parse_integer(b"1f", 16, 0, 0xFFFF), Some(0x1F));
    assert_eq!(parse_integer(b"1F", 16, 0, 0xFFFF), Some(0x1F));
    assert_eq!(parse_integer(b"1G", 16, 0, 0xFFFF), None);
    assert_eq!(parse_integer(b"zz", 36, 0, 0xFFFF), Some(35 * 36 + 35));
    assert_eq!(parse_integer(b"FFFFFFFF", 16, 0, 0xFFFF_FFFF), Some(0xFFFF_FFFF));
    assert_eq!(parse_integer(b"100000000", 16, 0, 0xFFFF_FFFF), None);
    assert_eq!(
        parse_integer(b"99999999999999999999999999", 10, 0, 0xFFFF_FFFF),
        None
    );
    assert!(starts_with(b"0x12", b"0x"));
    assert!(!starts_with(b"0", b"0x"));
    assert!(starts_with(b"abc", b""));
}
