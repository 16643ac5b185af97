use pngme::chunk_type::ChunkType;
use pngme::Error;
use std::convert::TryFrom;
use std::str::FromStr;

#[test]
pub fn test_chunk_type_from_bytes() {
    let expected = [82, 117, 83, 116];
    let actual = ChunkType::try_from([82, 117, 83, 116]).unwrap();

    assert_eq!(expected, actual.bytes());
}

#[test]
pub fn test_chunk_type_from_str() {
    let expected = ChunkType::try_from([82, 117, 83, 116]).unwrap();
    let actual = ChunkType::from_str("RuSt").unwrap();
    assert_eq!(expected, actual);
}

#[test]
pub fn test_chunk_type_is_critical() {
    let chunk = ChunkType::from_str("RuSt").unwrap();
    assert!(chunk.is_critical());
}

#[test]
pub fn test_chunk_type_is_not_critical() {
    let chunk = ChunkType::from_str("ruSt").unwrap();
    assert!(!chunk.is_critical());
}

#[test]
pub fn test_chunk_type_is_public() {
    let chunk = ChunkType::from_str("RUSt").unwrap();
    assert!(chunk.is_public());
}

#[test]
pub fn test_chunk_type_is_not_public() {
    let chunk = ChunkType::from_str("RuSt").unwrap();
    assert!(!chunk.is_public());
}

#[test]
pub fn test_chunk_type_is_reserved_bit_valid() {
    let chunk = ChunkType::from_str("RuSt").unwrap();
    assert!(chunk.is_reserved_bit_valid());
}

#[test]
pub fn test_chunk_type_is_reserved_bit_invalid() {
    let chunk = ChunkType::from_str("Rust").unwrap();
    assert!(!chunk.is_reserved_bit_valid());
}

#[test]
pub fn test_chunk_type_is_safe_to_copy() {
    let chunk = ChunkType::from_str("RuSt").unwrap();
    assert!(chunk.is_safe_to_copy());
}

#[test]
pub fn test_chunk_type_is_unsafe_to_copy() {
    let chunk = ChunkType::from_str("RuST").unwrap();
    assert!(!chunk.is_safe_to_copy());
}

#[test]
pub fn test_valid_chunk_is_valid() {
    let chunk = ChunkType::from_str("RuSt").unwrap();
    assert!(chunk.is_valid());
}

#[test]
pub fn test_invalid_chunk_is_valid() {
    let chunk = ChunkType::from_str("Rust").unwrap();
    assert!(!chunk.is_valid());

    let chunk = ChunkType::from_str("Ru1t");
    assert!(chunk.is_err());
}

#[test]
pub fn test_chunk_type_string() {
    let chunk = ChunkType::from_str("RuSt").unwrap();
    assert_eq!(&chunk.to_string(), "RuSt");
}

#[test]
pub fn test_chunk_type_trait_impls() {
    let chunk_type_1: ChunkType = TryFrom::try_from([82, 117, 83, 116]).unwrap();
    let chunk_type_2: ChunkType = FromStr::from_str("RuSt").unwrap();
    let _chunk_string = chunk_type_1.to_string();
    let _are_chunks_equal = chunk_type_1 == chunk_type_2;
}

#[test]
pub fn chunk_type_equality_is_by_bytes() {
    let a: ChunkType = TryFrom::try_from([82, 117, 83, 116]).unwrap();
    let b: ChunkType = FromStr::from_str("RuSt").unwrap();
    let c: ChunkType = FromStr::from_str("RuSU").unwrap();
    assert!(a == b);
    assert!(a != c);
    assert!(c != b);
}

#[test]
pub fn chunk_type_from_str_keeps_the_letters_as_bytes() {
    let chunk = ChunkType::from_str("aZbY").unwrap();
    assert_eq!(chunk.bytes(), [97, 90, 98, 89]);
    assert_eq!(chunk.to_string(), "aZbY");
}

#[test]
pub fn chunk_type_from_str_refuses_other_lengths() {
    assert_eq!(ChunkType::from_str(""), Err(Error::InvalidLength));
    assert_eq!(ChunkType::from_str("Rus"), Err(Error::InvalidLength));
    assert_eq!(ChunkType::from_str("RuStt"), Err(Error::InvalidLength));
    assert_eq!(ChunkType::from_str("Ru1"), Err(Error::InvalidLength));
}

#[test]
pub fn chunk_type_length_counts_characters() {
    // four bytes, three characters
    assert_eq!(ChunkType::from_str("\u{e9}ab"), Err(Error::InvalidLength));
    // four characters, eight bytes
    assert_eq!(
        ChunkType::from_str("\u{e9}\u{e9}\u{e9}\u{e9}"),
        Err(Error::InvalidCharacter)
    );
}

#[test]
pub fn chunk_type_from_str_refuses_what_is_no_letter() {
    assert_eq!(ChunkType::from_str("Ru1t"), Err(Error::InvalidCharacter));
    assert_eq!(ChunkType::from_str("RuS "), Err(Error::InvalidCharacter));
    assert_eq!(ChunkType::from_str("@uSt"), Err(Error::InvalidCharacter));
    assert_eq!(ChunkType::from_str("[uSt"), Err(Error::InvalidCharacter));
    assert_eq!(ChunkType::from_str("Ru`t"), Err(Error::InvalidCharacter));
    assert_eq!(ChunkType::from_str("Ru{t"), Err(Error::InvalidCharacter));
    assert!(ChunkType::from_str("AZaz").is_ok());
}

#[test]
pub fn chunk_type_from_str_trait_agrees() {
    let by_trait: Result<ChunkType, Error> = FromStr::from_str("Ru1t");
    assert_eq!(by_trait, Err(Error::InvalidCharacter));
    let by_trait: Result<ChunkType, Error> = FromStr::from_str("Ru");
    assert_eq!(by_trait, Err(Error::InvalidLength));
}

#[test]
pub fn chunk_type_from_bytes_takes_any_bytes() {
    let chunk = ChunkType::try_from([0, 49, 255, 32]).unwrap();
    assert_eq!(chunk.bytes(), [0, 49, 255, 32]);
}

#[test]
pub fn chunk_type_flags_of_rust_spellings() {
    let chunk = ChunkType::from_str("RuSt").unwrap();
    assert!(chunk.is_critical());
    assert!(!chunk.is_public());
    assert!(chunk.is_reserved_bit_valid());
    assert!(chunk.is_safe_to_copy());
    assert!(chunk.is_valid());
    assert!(!ChunkType::from_str("Rust").unwrap().is_reserved_bit_valid());
    assert!(!ChunkType::from_str("RuST").unwrap().is_safe_to_copy());
}

#[test]
pub fn chunk_type_flags_of_raw_bytes() {
    let chunk = ChunkType::try_from([0x20, 0x00, 0xff, 0xdf]).unwrap();
    assert!(!chunk.is_critical());
    assert!(chunk.is_public());
    assert!(!chunk.is_reserved_bit_valid());
    assert!(!chunk.is_valid());
    assert!(!chunk.is_safe_to_copy());
}

#[test]
pub fn chunk_type_text_of_valid_utf8_bytes() {
    let chunk = ChunkType::try_from([0xc3, 0xa9, 0x31, 0x20]).unwrap();
    assert_eq!(chunk.to_string(), "\u{e9}1 ");
}

#[test]
pub fn chunk_type_text_of_invalid_utf8_does_not_panic() {
    let chunk = ChunkType::try_from([0xff, 0xfe, 0x41, 0x42]).unwrap();
    let text = chunk.to_string();
    assert!(!text.is_empty());
    assert_ne!(text.as_bytes(), &[0xff, 0xfe, 0x41, 0x42]);
    assert_eq!(text, chunk.to_string());
}
