use pngme::chunk_type::ChunkType;
use pngme::error::PngError;
use std::convert::TryFrom;
use std::str::FromStr;

#[test]
pub fn test_chunk_type_from_bytes() {
    let expected = [82, 117, 83, 116];
    let actual = ChunkType::try_from([82, 117, 83, 116]).unwrap();

    assert_eq!(expected, actual.bytes());
}

#[test]
pub fn test_chunk_type_from_str() {
    let expected = ChunkType::try_from([82, 117, 83, 116]).unwrap();
    let actual = ChunkType::from_str("RuSt").unwrap();
    assert_eq!(expected, actual);
}

#[test]
pub fn test_chunk_type_is_critical() {
    let chunk = ChunkType::from_str("RuSt").unwrap();
    assert!(chunk.is_critical());
}

#[test]
pub fn test_chunk_type_is_not_critical() {
    let chunk = ChunkType::from_str("ruSt").unwrap();
    assert!(!chunk.is_critical());
}

#[test]
pub fn test_chunk_type_is_public() {
    let chunk = ChunkType::from_str("RUSt").unwrap();
    assert!(chunk.is_public());
}

#[test]
pub fn test_chunk_type_is_not_public() {
    let chunk = ChunkType::from_str("RuSt").unwrap();
    assert!(!chunk.is_public());
}

#[test]
pub fn test_chunk_type_is_reserved_bit_valid() {
    let chunk = ChunkType::from_str("RuSt").unwrap();
    assert!(chunk.is_reserved_bit_valid());
}

#[test]
pub fn test_chunk_type_is_reserved_bit_invalid() {
    let chunk = ChunkType::from_str("Rust").unwrap();
    assert!(!chunk.is_reserved_bit_valid());
}

#[test]
pub fn test_chunk_type_is_safe_to_copy() {
    let chunk = ChunkType::from_str("RuSt").unwrap();
    assert!(chunk.is_safe_to_copy());
}

#[test]
pub fn test_chunk_type_is_unsafe_to_copy() {
    let chunk = ChunkType::from_str("RuST").unwrap();
    assert!(!chunk.is_safe_to_copy());
}

#[test]
pub fn test_valid_chunk_is_valid() {
    let chunk = ChunkType::from_str("RuSt").unwrap();
    assert!(chunk.is_valid());
}

#[test]
pub fn test_invalid_chunk_is_valid() {
    let chunk = ChunkType::from_str("Rust").unwrap();
    assert!(!chunk.is_valid());
    let chunk = ChunkType::from_str("Ru1t");

    assert!(chunk.is_err());
}

#[test]
pub fn test_chunk_type_string() {
    let chunk = ChunkType::from_str("RuSt").unwrap();
    assert_eq!(&chunk.to_text().unwrap(), "RuSt");
}

#[test]
pub fn test_chunk_type_trait_impls() {
    let chunk_type_1: ChunkType = TryFrom::try_from([82, 117, 83, 116]).unwrap();
    let chunk_type_2: ChunkType = FromStr::from_str("RuSt").unwrap();
    let _chunk_string = format!("{}", chunk_type_1.to_text().unwrap());
    let _are_chunks_equal = chunk_type_1 == chunk_type_2;
    assert!(_are_chunks_equal);
    assert_eq!(_chunk_string, "RuSt");
}

#[test]
fn parse_and_try_into_reach_the_same_constructors() {
    let by_trait: Result<ChunkType, PngError> = TryFrom::try_from([82, 49, 83, 116]);
    assert_eq!(by_trait, Err(PngError::MalformedTag));
    let parsed: Result<ChunkType, PngError> = "RuSt".parse();
    assert_eq!(parsed, ChunkType::from_str("RuSt"));
    let parsed: Result<ChunkType, PngError> = "Ru".parse();
    assert_eq!(parsed, Err(PngError::MalformedTag));
    let converted: Result<ChunkType, PngError> = [82u8, 117, 83, 116].try_into();
    assert_eq!(converted.unwrap().bytes(), [82, 117, 83, 116]);
}

#[test]
fn new_takes_any_bytes() {
    let t = ChunkType::new([0, 255, 49, 32]);
    assert_eq!(t.bytes(), [0, 255, 49, 32]);
    assert!(!t.is_valid());
    assert_eq!(t.to_text(), Err(PngError::NonTextPayload));
}

#[test]
fn try_from_refuses_each_non_letter_position() {
    assert_eq!(ChunkType::try_from([49, 117, 83, 116]), Err(PngError::MalformedTag));
    assert_eq!(ChunkType::try_from([82, 64, 83, 116]), Err(PngError::MalformedTag));
    assert_eq!(ChunkType::try_from([82, 117, 91, 116]), Err(PngError::MalformedTag));
    assert_eq!(ChunkType::try_from([82, 117, 83, 123]), Err(PngError::MalformedTag));
    assert_eq!(ChunkType::try_from([82, 117, 83, 96]), Err(PngError::MalformedTag));
}

#[test]
fn letter_bounds() {
    assert!(ChunkType::is_byte_valid(&b'A'));
    assert!(ChunkType::is_byte_valid(&b'Z'));
    assert!(ChunkType::is_byte_valid(&b'a'));
    assert!(ChunkType::is_byte_valid(&b'z'));
    assert!(!ChunkType::is_byte_valid(&b'@'));
    assert!(!ChunkType::is_byte_valid(&b'['));
    assert!(!ChunkType::is_byte_valid(&b'`'));
    assert!(!ChunkType::is_byte_valid(&b'{'));
    assert!(ChunkType::is_chunk_valid(&[65, 90, 97, 122]));
    assert!(!ChunkType::is_chunk_valid(&[65, 90, 97, 48]));
}

#[test]
fn from_str_wants_four_bytes() {
    assert_eq!(ChunkType::from_str("RuS"), Err(PngError::MalformedTag));
    assert_eq!(ChunkType::from_str("RuStt"), Err(PngError::MalformedTag));
    assert_eq!(ChunkType::from_str(""), Err(PngError::MalformedTag));
    assert_eq!(ChunkType::from_str("R\u{e9}S"), Err(PngError::MalformedTag));
}

#[test]
fn reserved_bit_does_not_stop_construction() {
    let t = ChunkType::try_from([82, 117, 115, 116]).unwrap();
    assert!(!t.is_valid());
    assert_eq!(t.to_text().unwrap(), "Rust");
}

#[test]
fn matches_text_compares_bytes() {
    let t = ChunkType::from_str("RuSt").unwrap();
    assert!(t.matches_text("RuSt"));
    assert!(!t.matches_text("ruSt"));
    assert!(!t.matches_text("RuS"));
    assert!(!t.matches_text("RuStx"));
}

#[test]
fn flags_follow_bit_five_of_each_byte() {
    for b in [b'A', b'a', b'Q', b'q'] {
        let lower = b & 32 != 0;
        assert_eq!(ChunkType::new([b, b'A', b'A', b'A']).is_critical(), !lower);
        assert_eq!(ChunkType::new([b'A', b, b'A', b'A']).is_public(), !lower);
        assert_eq!(ChunkType::new([b'A', b'A', b, b'A']).is_reserved_bit_valid(), !lower);
        assert_eq!(ChunkType::new([b'A', b'A', b, b'A']).is_valid(), !lower);
        assert_eq!(ChunkType::new([b'A', b'A', b'A', b]).is_safe_to_copy(), lower);
    }
}
