use pngme::endian::{push_be_u32, read_be_u32};
use pngme::text::decimal_string;
use pngme::Error;

#[test]
fn decimal_string_of_small_numbers() {
    assert_eq!(decimal_string(0), "0");
    assert_eq!(decimal_string(7), "7");
    assert_eq!(decimal_string(9), "9");
    assert_eq!(decimal_string(10), "10");
    assert_eq!(decimal_string(42), "42");
    assert_eq!(decimal_string(100), "100");
    assert_eq!(decimal_string(1234567890), "1234567890");
}

#[test]
fn decimal_string_of_the_largest_number() {
    assert_eq!(decimal_string(u32::MAX), "4294967295");
    assert_eq!(decimal_string(4294967290), "4294967290");
}

#[test]
fn decimal_string_agrees_with_the_standard_library() {
    let mut value: u32 = 1;
    for _ in 0..40 {
        assert_eq!(decimal_string(value), format!("{}", value));
        value = value.wrapping_mul(2654435761).wrapping_add(12345);
    }
}

#[test]
fn big_endian_reads() {
    let bytes = [0xaa, 0x12, 0x34, 0x56, 0x78, 0xbb];
    assert_eq!(read_be_u32(&bytes, 1), 0x12345678);
    assert_eq!(read_be_u32(&bytes, 0), 0xaa123456);
    assert_eq!(read_be_u32(&bytes, 2), 0x345678bb);
    assert_eq!(read_be_u32(&[0, 0, 0, 42], 0), 42);
    assert_eq!(read_be_u32(&[255, 255, 255, 255], 0), u32::MAX);
    assert_eq!(read_be_u32(&[1, 0, 0, 0], 0), 16777216);
}

#[test]
fn big_endian_writes() {
    let mut out: Vec<u8> = vec![9];
    push_be_u32(&mut out, 0x12345678);
    assert_eq!(out, vec![9, 0x12, 0x34, 0x56, 0x78]);
    push_be_u32(&mut out, 42);
    assert_eq!(out, vec![9, 0x12, 0x34, 0x56, 0x78, 0, 0, 0, 42]);
    let mut out: Vec<u8> = Vec::new();
    push_be_u32(&mut out, u32::MAX);
    assert_eq!(out, vec![255, 255, 255, 255]);
    let mut out: Vec<u8> = Vec::new();
    push_be_u32(&mut out, 2882656334);
    assert_eq!(out, 2882656334u32.to_be_bytes().to_vec());
}

#[test]
fn big_endian_round_trip() {
    let mut value: u32 = 3;
    for _ in 0..40 {
        let mut out: Vec<u8> = Vec::new();
        push_be_u32(&mut out, value);
        assert_eq!(out, value.to_be_bytes().to_vec());
        assert_eq!(read_be_u32(&out, 0), value);
        value = value.wrapping_mul(2246822519).wrapping_add(97);
    }
}

#[test]
fn error_messages() {
    assert_eq!(Error::TooShort.message(), "value length less than 12");
    assert_eq!(Error::LengthMismatch.message(), "parse err");
    assert_eq!(Error::ChecksumMismatch.message(), "verify crc");
    assert_eq!(Error::InvalidType.message(), "chunk_type is invalid");
    assert_eq!(Error::NotUtf8.message(), "data is not valid UTF-8");
    assert_eq!(Error::InvalidLength.message(), "invalid str");
    assert_eq!(Error::InvalidCharacter.message(), "invalid character");
    assert_eq!(Error::BadSignature.message(), "bad signature");
    assert_eq!(Error::NotFound.message(), "chunk not found");
}
