use pngme::chunk_type::ChunkType;
use pngme::error::PngError;
use std::convert::TryFrom;
use std::str::FromStr;

#[test]
pub fn test_chunk_type_from_bytes() {
    let expected = [82, 117, 83, 116];
    let actual = ChunkType::try_from([82, 117, 83, 116]).unwrap();

    assert_eq!(expected, actual.bytes());
}

#[test]
pub fn test_chunk_type_from_str() {
    let expected = ChunkType::try_from([82, 117, 83, 116]).unwrap();
    let actual = ChunkType::from_str("RuSt").unwrap();
    assert_eq!(expected, actual);
}

#[test]
pub fn test_chunk_type_is_critical() {
    let chunk = ChunkType::from_str("RuSt").unwrap();
    assert!(chunk.is_critical());
}

#[test]
pub fn test_chunk_type_is_not_critical() {
    let chunk = ChunkType::from_str("ruSt").unwrap();
    assert!(!chunk.is_critical());
}

#[test]
pub fn test_chunk_type_is_public() {
    let chunk = ChunkType::from_str("RUSt").unwrap();
    assert!(chunk.is_public());
}

#[test]
pub fn test_chunk_type_is_not_public() {
    let chunk = ChunkType::from_str("RuSt").unwrap();
    assert!(!chunk.is_public());
}

#[test]
pub fn test_chunk_type_is_reserved_bit_valid() {
    let chunk = ChunkType::from_str("RuSt").unwrap();
    assert!(chunk.is_reserved_bit_valid());
}

#[test]
pub fn test_chunk_type_is_reserved_bit_invalid() {
    let chunk = ChunkType::from_str("Rust").unwrap();
    assert!(!chunk.is_reserved_bit_valid());
}

#[test]
pub fn test_chunk_type_is_safe_to_copy() {
    let chunk = ChunkType::from_str("RuSt").unwrap();
    assert!(chunk.is_safe_to_copy());
}

#[test]
pub fn test_chunk_type_is_unsafe_to_copy() {
    let chunk = ChunkType::from_str("RuST").unwrap();
    assert!(!chunk.is_safe_to_copy());
}

#[test]
pub fn test_valid_chunk_is_valid() {
    let chunk = ChunkType::from_str("RuSt").unwrap();
    assert!(chunk.is_valid());
}

#[test]
pub fn test_invalid_chunk_is_valid() {
    let chunk = ChunkType::from_str("Rust").unwrap();
    assert!(!chunk.is_valid());

    let chunk = ChunkType::from_str("Ru1t");
    assert!(chunk.is_err());
}

#[test]
pub fn test_chunk_type_string() {
    let chunk = ChunkType::from_str("RuSt").unwrap();
    assert_eq!(&chunk.to_string(), "RuSt");
}

#[test]
pub fn test_chunk_type_trait_impls() {
    let chunk_type_1: ChunkType = TryFrom::try_from([82, 117, 83, 116]).unwrap();
    let chunk_type_2: ChunkType = FromStr::from_str("RuSt").unwrap();
    let _chunk_string = chunk_type_1.to_string();
    let _are_chunks_equal = chunk_type_1 == chunk_type_2;
}

#[test]
fn flags_of_rust_tags() {
    let t = ChunkType::from_str("RuSt").unwrap();
    assert!(t.is_critical());
    assert!(!t.is_public());
    assert!(t.is_reserved_bit_valid());
    assert!(t.is_safe_to_copy());
    assert!(!ChunkType::from_str("ruSt").unwrap().is_critical());
    assert!(!ChunkType::from_str("RuST").unwrap().is_safe_to_copy());
    let r = ChunkType::from_str("Rust").unwrap();
    assert!(!r.is_reserved_bit_valid());
    assert!(!r.is_valid());
}

#[test]
fn type_from_bytes_rejects_non_letters() {
    assert_eq!(ChunkType::try_from([82, 117, 49, 116]), Err(PngError::InvalidTypeBytes));
    assert_eq!(ChunkType::try_from([64, 117, 83, 116]), Err(PngError::InvalidTypeBytes));
    assert_eq!(ChunkType::try_from([82, 117, 83, 123]), Err(PngError::InvalidTypeBytes));
    assert_eq!(ChunkType::from_str("Ru1t"), Err(PngError::InvalidTypeBytes));
}

#[test]
fn type_from_str_checks_length() {
    assert_eq!(ChunkType::from_str("RuS"), Err(PngError::InvalidLength));
    assert_eq!(ChunkType::from_str("RuStx"), Err(PngError::InvalidLength));
    assert_eq!(ChunkType::from_str(""), Err(PngError::InvalidLength));
    assert_eq!(ChunkType::from_str("Ruéa"), Err(PngError::InvalidLength));
}

#[test]
fn type_equality_is_case_sensitive() {
    let a = ChunkType::from_str("ruSt").unwrap();
    let b = ChunkType::from_str("RuSt").unwrap();
    assert_ne!(a, b);
    assert_eq!(a.bytes(), [114, 117, 83, 116]);
}

#[test]
fn quoted_rendering_wraps_the_tag() {
    let t = ChunkType::from_str("RuSt").unwrap();
    assert_eq!(t.to_quoted_string(), "\"RuSt\"");
    assert_eq!(t.to_quoted_string(), format!("{:?}", t.to_string()));
    assert_eq!(ChunkType::from_str("ruST").unwrap().to_quoted_string(), "\"ruST\"");
}

#[test]
fn bytes_and_constructor_are_inverse() {
    let t = ChunkType::from_str("ruSt").unwrap();
    assert_eq!(ChunkType::try_from(t.bytes()).unwrap(), t);
    assert_eq!(ChunkType::from_str(&t.to_string()).unwrap(), t);
}
